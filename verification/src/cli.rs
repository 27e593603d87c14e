//! The command-line front end as a pure function from arguments to the text
//! to print: `format` and `validate` read `--flag value` pairs into an
//! address, `parse` reads freeform text.
use vstd::prelude::*;

use crate::address::{
    block, format_address, format_us_address, issue_message, issue_views, issues, newline,
    parse_us_address, parsed, us_block, validate, Address, AddressView,
};
use crate::text::{chars_of, join, same_chars, space, string_of};

verus! {

broadcast use vstd::string::group_string_axioms;

/// The character sequences of a list of strings.
pub open spec fn string_views(v: Seq<String>) -> Seq<Seq<char>> {
    v.map_values(|s: String| s@)
}

/// The usage text.
pub open spec fn usage_text() -> Seq<char> {
    "usage: addrkit <format|validate> [flags]\n\
     \x20\x20 or: addrkit parse <freeform address text>\n\
     \n\
     flags (format, validate):\n\
     \x20\x20--recipient <name>\n\
     \x20\x20--street1 <line>\n\
     \x20\x20--street2 <line>\n\
     \x20\x20--city <city>\n\
     \x20\x20--region <state or province>\n\
     \x20\x20--postal <postal code>\n\
     \x20\x20--country <country>\n\
     \n\
     examples:\n\
     \x20\x20addrkit format --recipient \"Jane Doe\" --street1 \"123 Main St\" \\\n\
     \x20\x20  --city Springfield --region IL --postal 62704\n\
     \x20\x20addrkit parse \"Jane Doe, 123 Main St, Springfield, IL 62704\""@
}

/// `a` with the field that `flag` names set to `value`, or none for a flag
/// that names no field.
pub open spec fn set_field(a: AddressView, flag: Seq<char>, value: Seq<char>) -> Option<
    AddressView,
> {
    if flag == "--recipient"@ {
        Some(AddressView { recipient: value, ..a })
    } else if flag == "--street1"@ {
        Some(AddressView { street1: value, ..a })
    } else if flag == "--street2"@ {
        Some(AddressView { street2: value, ..a })
    } else if flag == "--city"@ {
        Some(AddressView { city: value, ..a })
    } else if flag == "--region"@ {
        Some(AddressView { region: value, ..a })
    } else if flag == "--postal"@ {
        Some(AddressView { postal_code: value, ..a })
    } else if flag == "--country"@ {
        Some(AddressView { country: value, ..a })
    } else {
        None
    }
}

/// `a` after the `--flag value` pairs of `args`, in order; the first flag
/// without a value or that names no field is an error.
pub open spec fn apply_flags(a: AddressView, args: Seq<Seq<char>>) -> Result<
    AddressView,
    Seq<char>,
>
    decreases args.len(),
{
    if args.len() == 0 {
        Ok(a)
    } else if args.len() == 1 {
        Err("flag '"@ + args[0] + "' is missing a value"@)
    } else {
        match set_field(a, args[0], args[1]) {
            Some(b) => apply_flags(b, args.skip(2)),
            None => Err("unknown flag '"@ + args[0] + "'"@),
        }
    }
}

/// The report of `validate`: `ok`, or one message per issue.
pub open spec fn report(a: AddressView) -> Seq<char> {
    let found = issues(a);
    if found.len() == 0 {
        "ok"@
    } else {
        join(found.map_values(|i| issue_message(i)), newline())
    }
}

/// What the command line prints for `args`: the output, or the error.
pub open spec fn outcome(args: Seq<Seq<char>>) -> Result<Seq<char>, Seq<char>> {
    if args.len() == 0 {
        Err(usage_text())
    } else {
        let command = args[0];
        let rest = args.skip(1);
        if command == "format"@ {
            match apply_flags(AddressView::blank(), rest) {
                Ok(a) => Ok(block(a)),
                Err(e) => Err(e),
            }
        } else if command == "validate"@ {
            match apply_flags(AddressView::blank(), rest) {
                Ok(a) => Ok(report(a)),
                Err(e) => Err(e),
            }
        } else if command == "parse"@ {
            if rest.len() == 0 {
                Err("parse requires a freeform address argument\n\n"@ + usage_text())
            } else {
                Ok(us_block(parsed(join(rest, space()))))
            }
        } else {
            Err("unknown command '"@ + command + "'\n\n"@ + usage_text())
        }
    }
}

/// The usage text.
pub fn usage() -> (r: String)
    ensures
        r@ == usage_text(),
{
    String::from_str(
        "usage: addrkit <format|validate> [flags]\n\
         \x20\x20 or: addrkit parse <freeform address text>\n\
         \n\
         flags (format, validate):\n\
         \x20\x20--recipient <name>\n\
         \x20\x20--street1 <line>\n\
         \x20\x20--street2 <line>\n\
         \x20\x20--city <city>\n\
         \x20\x20--region <state or province>\n\
         \x20\x20--postal <postal code>\n\
         \x20\x20--country <country>\n\
         \n\
         examples:\n\
         \x20\x20addrkit format --recipient \"Jane Doe\" --street1 \"123 Main St\" \\\n\
         \x20\x20  --city Springfield --region IL --postal 62704\n\
         \x20\x20addrkit parse \"Jane Doe, 123 Main St, Springfield, IL 62704\"",
    )
}

/// Whether `s` holds exactly the characters of `lit`.
fn is(s: &String, lit: &str) -> (r: bool)
    ensures
        r == (s@ == lit@),
{
    same_chars(&chars_of(s.as_str()), &chars_of(lit))
}

/// A copy of a string.
fn copy(s: &String) -> (r: String)
    ensures
        r@ == s@,
{
    string_of(&chars_of(s.as_str()))
}

/// `pre`, then `mid`, then `post`.
fn framed(pre: &str, mid: &String, post: &str) -> (r: String)
    ensures
        r@ == pre@ + mid@ + post@,
{
    let mut m = String::from_str(pre);
    m.append(mid.as_str());
    m.append(post);
    m
}

/// Turns `--flag value` pairs into an `Address`. A flag without a value or
/// one that names no field is reported as an error string.
pub fn parse_address(args: &[String]) -> (r: Result<Address, String>)
    ensures
        match r {
            Ok(a) => apply_flags(AddressView::blank(), string_views(args@)) == Ok::<
                AddressView,
                Seq<char>,
            >(a@),
            Err(e) => apply_flags(AddressView::blank(), string_views(args@)) == Err::<
                AddressView,
                Seq<char>,
            >(e@),
        },
{
    let mut address = Address::default();
    let mut i: usize = 0;
    assert(string_views(args@).skip(0) =~= string_views(args@));
    while i < args.len()
        invariant
            i <= args.len(),
            apply_flags(AddressView::blank(), string_views(args@)) == apply_flags(
                address@,
                string_views(args@).skip(i as int),
            ),
        decreases args.len() - i,
    {
        let ghost rest = string_views(args@).skip(i as int);
        if i + 1 >= args.len() {
            return Err(framed("flag '", &args[i], "' is missing a value"));
        }
        let flag = &args[i];
        let value = copy(&args[i + 1]);
        assert(rest[0] == flag@ && rest[1] == value@);
        assert(rest.skip(2) =~= string_views(args@).skip(i + 2));
        if is(flag, "--recipient") {
            address.recipient = value;
        } else if is(flag, "--street1") {
            address.street1 = value;
        } else if is(flag, "--street2") {
            address.street2 = value;
        } else if is(flag, "--city") {
            address.city = value;
        } else if is(flag, "--region") {
            address.region = value;
        } else if is(flag, "--postal") {
            address.postal_code = value;
        } else if is(flag, "--country") {
            address.country = value;
        } else {
            return Err(framed("unknown flag '", flag, "'"));
        }
        i += 2;
    }
    Ok(address)
}

/// The messages of the issues, one per line, or `ok` for none.
fn report_of(address: &Address) -> (r: String)
    ensures
        r@ == report(address@),
{
    let found = validate(address);
    if found.len() == 0 {
        return String::from_str("ok");
    }
    let mut out = String::new();
    let mut i: usize = 0;
    let ghost msgs = issue_views(found@).map_values(|x| issue_message(x));
    while i < found.len()
        invariant
            i <= found.len(),
            msgs.len() == found@.len(),
            forall|k: int| 0 <= k < found@.len() ==> #[trigger] msgs[k] == issue_message(found@[k]@),
            out@ == join(msgs.take(i as int), newline()),
        decreases found.len() - i,
    {
        proof {
            crate::text::lemma_join_push(msgs.take(i as int), newline(), msgs[i as int]);
            assert(msgs.take(i + 1) =~= msgs.take(i as int).push(msgs[i as int]));
        }
        if i > 0 {
            out.append("\n");
            assert("\n"@ =~= newline()) by {
                reveal_strlit("\n");
            }
        }
        let m = found[i].message();
        out.append(m.as_str());
        i += 1;
    }
    assert(msgs.take(found.len() as int) =~= msgs);
    out
}

/// What the command line prints for `args`: the output on success, the
/// error text otherwise.
pub fn run(args: Vec<String>) -> (r: Result<String, String>)
    ensures
        match r {
            Ok(s) => outcome(string_views(args@)) == Ok::<Seq<char>, Seq<char>>(s@),
            Err(e) => outcome(string_views(args@)) == Err::<Seq<char>, Seq<char>>(e@),
        },
{
    if args.len() == 0 {
        return Err(usage());
    }
    let ghost all = string_views(args@);
    let command = &args[0];
    let rest = vstd::slice::slice_subrange(args.as_slice(), 1, args.len());
    assert(string_views(rest@) =~= all.skip(1));
    if is(command, "format") {
        match parse_address(rest) {
            Ok(a) => Ok(format_address(&a)),
            Err(e) => Err(e),
        }
    } else if is(command, "validate") {
        match parse_address(rest) {
            Ok(a) => Ok(report_of(&a)),
            Err(e) => Err(e),
        }
    } else if is(command, "parse") {
        if rest.len() == 0 {
            let mut m = String::from_str("parse requires a freeform address argument\n\n");
            let u = usage();
            m.append(u.as_str());
            return Err(m);
        }
        let mut text = String::new();
        let mut i: usize = 0;
        while i < rest.len()
            invariant
                i <= rest.len(),
                rest.len() > 0,
                text@ == join(string_views(rest@).take(i as int), space()),
            decreases rest.len() - i,
        {
            proof {
                crate::text::lemma_join_push(
                    string_views(rest@).take(i as int),
                    space(),
                    rest@[i as int]@,
                );
                assert(string_views(rest@).take(i + 1) =~= string_views(rest@).take(i as int).push(
                    rest@[i as int]@,
                ));
            }
            if i > 0 {
                text.append(" ");
                assert(" "@ =~= space()) by {
                    reveal_strlit(" ");
                }
            }
            text.append(rest[i].as_str());
            i += 1;
        }
        assert(string_views(rest@).take(rest.len() as int) =~= string_views(rest@));
        Ok(format_us_address(&parse_us_address(text.as_str())))
    } else {
        let mut m = framed("unknown command '", command, "'\n\n");
        let u = usage();
        m.append(u.as_str());
        Err(m)
    }
}

} // verus!
