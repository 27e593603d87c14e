//! Properties that relate the library's functions to each other or to
//! themselves, stated over the specs their contracts use.
use vstd::prelude::*;

use crate::address::{
    blank_issue, block, capital_line, intl_lines, intl_locality, first_name_match, issues, postal_issues, has_digit, intl_block, is_domestic, is_domestic_address, is_state_code,
    lemma_first_name_match_skip, line_if, newline, or_else, parse_lead, parsed, postal_code,
    region_code, region_issues, street_lines, us_block, us_country_lines, us_lines, us_locality,
    AddressView, IssueView,
};
use crate::states::{
    lemma_codes_are_upper_letters, lemma_name_facts, name_key, state_code, state_name,
    STATE_COUNT,
};
use crate::text::{
    all_space, is_ascii_text, lemma_collapse_blank, lemma_collapse_push, ascii_lower, ascii_upper, char_upper, collapse, collapse_each, digits, is_break, is_digit,
    is_space, is_word, join, lemma_collapse_idempotent, lemma_collapse_map,
    lemma_collapse_single_spaced, lemma_join_concat, lemma_join_push, lemma_nonblank_all,
    lemma_pieces_concat, lemma_pieces_join_lines, lemma_pieces_unbroken, lemma_upper_ascii,
    lemma_upper_keeps_digit, lemma_upper_map, lemma_words_are_words, lemma_words_concat,
    lemma_words_join, lemma_words_of_word, map_chars, nonblank, pieces, segments, space, unbroken, upper,
    words,
};

verus! {

/// Normalizing whitespace twice gives what normalizing once gives.
pub proof fn law_normalize_whitespace_idempotent(s: Seq<char>)
    ensures
        collapse(collapse(s)) == collapse(s),
{
    lemma_collapse_idempotent(s);
}

/// Whitespace in words joined by single spaces is those single spaces.
proof fn lemma_join_words_shape(ws: Seq<Seq<char>>)
    requires
        forall|i: int| 0 <= i < ws.len() ==> is_word(#[trigger] ws[i]),
    ensures
        ({
            let j = join(ws, space());
            forall|i: int|
                0 <= i < j.len() && is_space(#[trigger] j[i]) ==> j[i] == ' ' && 0 < i < j.len()
                    - 1 && !is_space(j[i - 1]) && !is_space(j[i + 1])
        }),
    decreases ws.len(),
{
    if ws.len() == 1 {
        assert(is_word(ws[0]));
    } else if ws.len() > 1 {
        let init = ws.drop_last();
        let w = ws.last();
        assert forall|i: int| 0 <= i < init.len() implies is_word(#[trigger] init[i]) by {
            assert(init[i] == ws[i]);
        }
        assert(is_word(w)) by {
            assert(w == ws[ws.len() - 1]);
        }
        lemma_join_words_shape(init);
        let ji = join(init, space());
        let j = join(ws, space());
        assert(j == ji + space() + w);
        crate::text::lemma_join_empty(init, space());
        assert forall|i: int| 0 <= i < init.len() implies (#[trigger] init[i]).len() > 0 by {
            assert(is_word(init[i]));
        }
        assert(ji.len() > 0);
        assert(!is_space(ji[ji.len() - 1]));
        assert forall|i: int| 0 <= i < j.len() && is_space(#[trigger] j[i]) implies j[i] == ' ' && 0
            < i < j.len() - 1 && !is_space(j[i - 1]) && !is_space(j[i + 1]) by {
            if i < ji.len() {
                assert(j[i] == ji[i]);
                assert(j[i - 1] == ji[i - 1]);
                if i + 1 < ji.len() {
                    assert(j[i + 1] == ji[i + 1]);
                }
            } else if i == ji.len() {
                assert(j[i + 1] == w[0]);
            } else {
                assert(j[i] == w[i - ji.len() - 1]);
            }
        }
    }
}

/// Normalized whitespace is single spaces between non-whitespace
/// characters: no other whitespace character, none at either end, never
/// two in a row.
pub proof fn law_normalize_whitespace_shape(s: Seq<char>)
    ensures
        forall|i: int|
            0 <= i < collapse(s).len() && is_space(#[trigger] collapse(s)[i]) ==> collapse(s)[i]
                == ' ' && 0 < i < collapse(s).len() - 1 && !is_space(collapse(s)[i - 1])
                && !is_space(collapse(s)[i + 1]),
{
    lemma_words_are_words(s);
    lemma_join_words_shape(words(s));
}

/// The digits of a string of digits are the string itself.
proof fn lemma_digits_of_digits(s: Seq<char>)
    requires
        forall|i: int| 0 <= i < s.len() ==> is_digit(#[trigger] s[i]),
    ensures
        digits(s) == s,
    decreases s.len(),
{
    if s.len() > 0 {
        let p = s.drop_last();
        assert forall|i: int| 0 <= i < p.len() implies is_digit(#[trigger] p[i]) by {
            assert(p[i] == s[i]);
        }
        lemma_digits_of_digits(p);
        assert(is_digit(s[s.len() - 1]));
        assert(p.push(s.last()) =~= s);
    }
}

/// Every character `digits` keeps is a digit.
proof fn lemma_digits_are_digits(s: Seq<char>)
    ensures
        forall|i: int| 0 <= i < digits(s).len() ==> is_digit(#[trigger] digits(s)[i]),
    decreases s.len(),
{
    if s.len() > 0 {
        lemma_digits_are_digits(s.drop_last());
        let d = digits(s.drop_last());
        assert forall|i: int| 0 <= i < digits(s).len() implies is_digit(#[trigger] digits(s)[i]) by {
            if i < d.len() {
                assert(digits(s)[i] == d[i]);
            }
        }
    }
}

/// Digits are kept across a concatenation, in order.
proof fn lemma_digits_concat(a: Seq<char>, b: Seq<char>)
    ensures
        digits(a + b) == digits(a) + digits(b),
    decreases b.len(),
{
    if b.len() == 0 {
        assert(a + b =~= a);
        assert(digits(a) + digits(b) =~= digits(a));
    } else {
        lemma_digits_concat(a, b.drop_last());
        assert((a + b).drop_last() =~= a + b.drop_last());
        assert((a + b).last() == b.last());
        assert((digits(a) + digits(b.drop_last())).push(b.last()) =~= digits(a) + digits(
            b.drop_last(),
        ).push(b.last()));
    }
}

/// A normalized US postal code normalizes to itself.
pub proof fn law_postal_code_idempotent(s: Seq<char>)
    ensures
        postal_code(s) matches Some(p) ==> postal_code(p) == Some(p),
{
    let d = digits(s);
    lemma_digits_are_digits(s);
    if d.len() == 5 {
        lemma_digits_of_digits(d);
    } else if d.len() == 9 {
        let p = d.take(5) + seq!['-'] + d.skip(5);
        assert forall|i: int| 0 <= i < d.take(5).len() implies is_digit(#[trigger] d.take(5)[i]) by {
            assert(d.take(5)[i] == d[i]);
        }
        assert forall|i: int| 0 <= i < d.skip(5).len() implies is_digit(#[trigger] d.skip(5)[i]) by {
            assert(d.skip(5)[i] == d[i + 5]);
        }
        lemma_digits_of_digits(d.take(5));
        lemma_digits_of_digits(d.skip(5));
        lemma_digits_concat(d.take(5) + seq!['-'], d.skip(5));
        lemma_digits_concat(d.take(5), seq!['-']);
        assert(seq!['-'].drop_last() =~= Seq::<char>::empty());
        assert(!is_digit('-'));
        assert(digits(seq!['-']) == digits(seq!['-'].drop_last()));
        assert(digits(seq!['-']) =~= Seq::<char>::empty());
        assert(digits(p) =~= d);
    }
}

/// A code of the state table is a word, upper-cases to itself, and is
/// unchanged by whitespace collapsing.
proof fn lemma_code_is_canonical(i: usize)
    requires
        i < STATE_COUNT,
    ensures
        collapse(state_code(i)) == state_code(i),
        upper(state_code(i)) == state_code(i),
{
    lemma_codes_are_upper_letters(i);
    let r = state_code(i);
    assert(is_word(r)) by {
        assert forall|k: int| 0 <= k < r.len() implies !is_space(#[trigger] r[k]) by {
            assert(k == 0 || k == 1);
        }
    }
    lemma_words_of_word(r);
    assert(join(seq![r], space()) == r);
    let r1 = r.drop_last();
    assert(r1.drop_last() =~= Seq::<char>::empty());
    assert(r1 =~= seq![r[0]]);
    assert(ascii_upper(r[0]) == r[0]);
    assert(ascii_upper(r[1]) == r[1]);
    assert(r1.last() == r[0]);
    assert(upper(r1) == upper(r1.drop_last()) + char_upper(r[0]));
    assert(upper(r1) =~= seq![r[0]]);
    assert(upper(r) == upper(r1) + char_upper(r[1]));
    assert(upper(r) =~= r);
}

/// A region code normalizes to itself, and it is a code of the state
/// table.
pub proof fn law_region_code_idempotent(s: Seq<char>)
    ensures
        region_code(s) matches Some(r) ==> is_state_code(r) && region_code(r) == Some(r),
{
    if let Some(r) = region_code(s) {
        let i = choose|i: usize| i < STATE_COUNT && #[trigger] state_code(i) == r;
        assert(i < STATE_COUNT && state_code(i) == r) by {
            let cleaned = collapse(s);
            if cleaned.len() == 2 {
            } else {
                let j = first_name_match(upper(cleaned), 0);
                lemma_first_name_match_in_table(upper(cleaned), 0);
                assert(state_code(j.unwrap()) == r);
            }
        }
        lemma_code_is_canonical(i);
        lemma_codes_are_upper_letters(i);
    }
}

/// The entry that `first_name_match` finds is in the table.
proof fn lemma_first_name_match_in_table(u: Seq<char>, i: usize)
    ensures
        first_name_match(u, i) matches Some(j) ==> j < STATE_COUNT,
    decreases STATE_COUNT - i,
{
    if i < STATE_COUNT {
        lemma_first_name_match_in_table(u, (i + 1) as usize);
    }
}

/// Two strings that differ only in which break characters they hold (a
/// line break where the other has a comma, or the other way round) split
/// into the same pieces.
proof fn lemma_pieces_same_breaks(s: Seq<char>, t: Seq<char>)
    requires
        s.len() == t.len(),
        forall|i: int| 0 <= i < s.len() ==> (is_break(#[trigger] s[i]) && is_break(t[i])) || s[i] == t[i],
    ensures
        pieces(s) == pieces(t),
    decreases s.len(),
{
    if s.len() > 0 {
        let s0 = s.drop_last();
        let t0 = t.drop_last();
        assert forall|i: int| 0 <= i < s0.len() implies (is_break(#[trigger] s0[i]) && is_break(t0[i]))
            || s0[i] == t0[i] by {
            assert(s0[i] == s[i] && t0[i] == t[i]);
        }
        lemma_pieces_same_breaks(s0, t0);
        assert((is_break(s[s.len() - 1]) && is_break(t[t.len() - 1])) || s[s.len() - 1] == t[t.len() - 1]);
    }
}

/// Line breaks and commas are interchangeable in the text that
/// `parse_us_address` reads: a pasted multi-line block and the same lines
/// separated by commas parse alike.
pub proof fn law_parse_breaks_interchangeable(s: Seq<char>, t: Seq<char>)
    requires
        s.len() == t.len(),
        forall|i: int|
            0 <= i < s.len() ==> (#[trigger] s[i] == t[i] || ((s[i] == '\n' || s[i] == ',') && (
            t[i] == '\n' || t[i] == ','))),
    ensures
        parsed(s) == parsed(t),
{
    lemma_pieces_same_breaks(s, t);
}

/// The region a US block prints: the state code when the region is in the
/// table, the region as given otherwise.
pub open spec fn printed_region(a: AddressView) -> Seq<char> {
    or_else(region_code(collapse(a.region)), collapse(a.region))
}

/// The postal code a US block prints: the normalized code when there is
/// one, the field as given otherwise.
pub open spec fn printed_postal(a: AddressView) -> Seq<char> {
    or_else(postal_code(collapse(a.postal_code)), collapse(a.postal_code))
}

/// The printed region is unchanged by collapsing.
proof fn lemma_printed_region(a: AddressView)
    ensures
        collapse(printed_region(a)) == printed_region(a),
        collapse(a.region).len() > 0 ==> printed_region(a).len() > 0,
{
    let rg = collapse(a.region);
    law_region_code_idempotent(rg);
    match region_code(rg) {
        Some(r) => {
            let i = choose|i: usize| i < STATE_COUNT && #[trigger] state_code(i) == r;
            lemma_code_is_canonical(i);
            lemma_codes_are_upper_letters(i);
        },
        None => {
            lemma_collapse_idempotent(a.region);
        },
    }
}

/// The printed postal code reads back as itself.
proof fn lemma_printed_postal(a: AddressView)
    ensures
        or_else(postal_code(printed_postal(a)), printed_postal(a)) == printed_postal(a),
{
    law_postal_code_idempotent(collapse(a.postal_code));
}

/// A string with a digit in it names no country spelled in letters.
proof fn lemma_digit_not_domestic(t: Seq<char>)
    requires
        collapse(t) == t,
        has_digit(t),
    ensures
        !is_domestic(t),
{
    let i = choose|i: int| 0 <= i < t.len() && is_digit(#[trigger] t[i]);
    lemma_upper_keeps_digit(t, i);
    let u = upper(t);
    let k = choose|k: int| 0 <= k < u.len() && is_digit(#[trigger] u[k]);
    reveal_strlit("US");
    reveal_strlit("USA");
    reveal_strlit("U.S.");
    reveal_strlit("U.S.A.");
    reveal_strlit("UNITED STATES");
    reveal_strlit("UNITED STATES OF AMERICA");
    if u == "US"@ || u == "USA"@ || u == "U.S."@ || u == "U.S.A."@ || u == "UNITED STATES"@ || u
        == "UNITED STATES OF AMERICA"@ {
        assert(!is_digit(u[k]));
    }
}

/// Whether the locality of a US block reads back: a non-blank city and
/// region, and a printed postal code that is either a single word with a
/// digit in it, or blank with a region whose last word has no digit and
/// that does not name the US.
pub open spec fn locality_reads_back(a: AddressView) -> bool {
    let region = printed_region(a);
    let postal = printed_postal(a);
    &&& collapse(a.city).len() > 0
    &&& collapse(a.region).len() > 0
    &&& {
        ||| is_word(postal) && has_digit(postal)
        ||| postal.len() == 0 && !has_digit(words(region).last()) && !is_domestic(region)
    }
}

/// The address that the city, region and postal code of a US block read
/// back as, before the name and street lines are read.
pub open spec fn read_locality(a: AddressView) -> AddressView {
    AddressView {
        city: collapse(a.city),
        region: printed_region(a),
        postal_code: printed_postal(a),
        ..AddressView::blank()
    }
}

/// Whether no field, as a US block prints it, holds a line break or a
/// comma. (Line breaks in a raw field are whitespace and collapse away; a
/// raw postal code that normalizes prints digits only.)
pub open spec fn fields_unbroken(a: AddressView) -> bool {
    &&& unbroken(collapse(a.recipient))
    &&& unbroken(collapse(a.street1))
    &&& unbroken(collapse(a.street2))
    &&& unbroken(collapse(a.city))
    &&& unbroken(printed_region(a))
    &&& unbroken(printed_postal(a))
}

/// The words of the text after the comma of a US locality line.
proof fn lemma_tail_words(region: Seq<char>, postal: Seq<char>)
    requires
        collapse(region) == region,
        region.len() > 0,
        postal.len() == 0 || is_word(postal),
    ensures
        ({
            let rest = if postal.len() > 0 {
                region + space() + postal
            } else {
                region
            };
            let tail = space() + rest;
            &&& words(tail) == if postal.len() > 0 {
                words(region).push(postal)
            } else {
                words(region)
            }
            &&& collapse(tail) == rest
            &&& words(collapse(tail)) == words(tail)
            &&& words(region).len() > 0
        }),
{
    let rest = if postal.len() > 0 {
        region + space() + postal
    } else {
        region
    };
    let tail = space() + rest;
    lemma_words_are_words(region);
    crate::text::lemma_join_empty(words(region), space());
    assert forall|i: int| 0 <= i < words(region).len() implies (#[trigger] words(region)[i]).len()
        > 0 by {
        assert(is_word(words(region)[i]));
    }
    assert(words(region).len() > 0);
    assert(Seq::<char>::empty().push(' ') + rest =~= tail);
    lemma_words_concat(Seq::<char>::empty(), ' ', rest);
    assert(words(Seq::<char>::empty()) + words(rest) =~= words(rest));
    if postal.len() > 0 {
        assert(region.push(' ') + postal =~= rest);
        lemma_words_concat(region, ' ', postal);
        lemma_words_of_word(postal);
        assert(words(region) + seq![postal] =~= words(region).push(postal));
        lemma_join_concat(words(region), seq![postal], space());
        assert(join(seq![postal], space()) == postal);
    }
    lemma_words_are_words(tail);
    lemma_words_join(words(tail));
}

/// What follows the comma of a US locality line: the printed region, then
/// the printed postal code when there is one.
pub open spec fn locality_rest(a: AddressView) -> Seq<char> {
    if printed_postal(a).len() > 0 {
        printed_region(a) + space() + printed_postal(a)
    } else {
        printed_region(a)
    }
}

/// The locality line splits at its comma into the city and the rest.
proof fn lemma_locality_pieces(a: AddressView)
    requires
        fields_unbroken(a),
        locality_reads_back(a),
    ensures
        pieces(us_locality(a)) == seq![collapse(a.city), space() + locality_rest(a)],
        collapse(space() + locality_rest(a)) == locality_rest(a),
        words(locality_rest(a)) == if printed_postal(a).len() > 0 {
            words(printed_region(a)).push(printed_postal(a))
        } else {
            words(printed_region(a))
        },
        words(printed_region(a)).len() > 0,
{
    let c = collapse(a.city);
    let rg = printed_region(a);
    let p = printed_postal(a);
    lemma_printed_region(a);
    lemma_printed_postal(a);
    let rest = locality_rest(a);
    let tail = space() + rest;
    assert(", "@ =~= seq![',', ' ']) by {
        reveal_strlit(", ");
    }
    assert(us_locality(a) =~= c.push(',') + tail);
    lemma_tail_words(rg, p);
    assert(unbroken(tail)) by {
        assert forall|k: int| 0 <= k < tail.len() implies !is_break(#[trigger] tail[k]) by {
            if k == 0 {
            } else if k < 1 + rg.len() {
                assert(tail[k] == rg[k - 1]);
            } else if k == 1 + rg.len() {
            } else {
                assert(tail[k] == p[k - 2 - rg.len()]);
            }
        }
    }
    lemma_pieces_unbroken(c);
    lemma_pieces_unbroken(tail);
    lemma_pieces_concat(c, ',', tail);
    assert(pieces(us_locality(a)) =~= seq![c, tail]);
    lemma_collapse_idempotent(tail);
    lemma_words_are_words(tail);
    lemma_words_join(words(tail));
}

/// The segments of a US block: the name and street lines, the city, and the
/// rest of the locality line.
proof fn lemma_block_segments(a: AddressView)
    requires
        is_domestic_address(a),
        fields_unbroken(a),
        locality_reads_back(a),
    ensures
        segments(us_block(a)) == street_lines(a) + seq![collapse(a.city), locality_rest(a)],
{
    let c = collapse(a.city);
    let rest = locality_rest(a);
    let tail = space() + rest;
    lemma_locality_pieces(a);
    lemma_printed_region(a);
    lemma_collapse_idempotent(a.recipient);
    lemma_collapse_idempotent(a.street1);
    lemma_collapse_idempotent(a.street2);
    lemma_collapse_idempotent(a.city);
    let l = street_lines(a);
    assert forall|i: int| 0 <= i < l.len() implies #[trigger] l[i].len() > 0 && unbroken(l[i])
        && collapse(l[i]) == l[i] by {
        assert(l[i] == collapse(a.recipient) || l[i] == collapse(a.street1) || l[i] == collapse(
            a.street2,
        ));
    }
    let loc = us_locality(a);
    assert(us_country_lines(a) =~= Seq::<Seq<char>>::empty());
    assert(loc.len() > 0);
    assert(line_if(loc) =~= seq![loc]);
    assert(l + line_if(loc) + us_country_lines(a) =~= l.push(loc));
    lemma_join_push(l, seq!['\n'], loc);
    let all = l + seq![c, tail];
    assert(pieces(us_block(a)) == all) by {
        if l.len() > 0 {
            lemma_pieces_join_lines(l);
            assert(join(l, seq!['\n']) + seq!['\n'] + loc =~= join(l, seq!['\n']).push('\n')
                + loc);
            lemma_pieces_concat(join(l, seq!['\n']), '\n', loc);
            assert(pieces(us_block(a)) =~= all);
        } else {
            assert(pieces(us_block(a)) =~= all);
        }
    }
    let segs = l + seq![c, rest];
    assert(collapse_each(all) =~= segs);
    assert forall|i: int| 0 <= i < segs.len() implies (#[trigger] segs[i]).len() > 0 by {
        if i < l.len() {
            assert(segs[i] == l[i]);
        }
    }
    lemma_nonblank_all(segs);
}

/// `parse_us_address` reads a US block back: the city, the region and the
/// postal code as the block prints them, and the name and street lines as
/// `parse_us_address` reads any such lines. This holds for a domestic
/// address whose printed fields hold no line break or comma and whose
/// locality reads back.
pub proof fn law_parse_reads_us_block(a: AddressView)
    requires
        is_domestic_address(a),
        fields_unbroken(a),
        locality_reads_back(a),
    ensures
        parsed(us_block(a)) == parse_lead(read_locality(a), street_lines(a)),
{
    let l = street_lines(a);
    let c = collapse(a.city);
    let rg = printed_region(a);
    let p = printed_postal(a);
    let rest = locality_rest(a);
    lemma_block_segments(a);
    lemma_locality_pieces(a);
    lemma_printed_region(a);
    lemma_printed_postal(a);
    let segs = l + seq![c, rest];
    assert(segs.last() == rest);
    assert(segs.drop_last() =~= l.push(c));
    assert(l.push(c).drop_last() =~= l);
    // The last segment is no country.
    if p.len() > 0 {
        lemma_collapse_idempotent(space() + rest);
        let i = choose|i: int| 0 <= i < p.len() && is_digit(#[trigger] p[i]);
        assert(rest[rg.len() + 1 + i] == p[i]);
        lemma_digit_not_domestic(rest);
        assert(words(rest).last() == p);
    } else {
        assert(words(rest).drop_last() =~= words(rg).drop_last());
    }
    assert(collapse(rg) == rg);
    let tokens = words(rest);
    let with_postal = tokens.len() > 0 && has_digit(tokens.last());
    assert(with_postal == (p.len() > 0));
    let region_words = if with_postal { tokens.drop_last() } else { tokens };
    assert(region_words =~= words(rg));
    assert(join(region_words, space()) == rg);
    assert((if with_postal { or_else(postal_code(tokens.last()), tokens.last()) } else { seq![] }) == p);
    assert(!is_domestic(segs.last()));
    assert(parsed(us_block(a)) == crate::address::parse_rest(seq![], segs));
}

/// The README's promise, read off the law above: when the block has a
/// recipient that does not start with a digit and a first street line,
/// `parse_us_address` gives back every field as the block prints it (the
/// country, which a domestic block leaves out, comes back empty).
pub proof fn law_parse_format_round_trip(a: AddressView)
    requires
        is_domestic_address(a),
        fields_unbroken(a),
        locality_reads_back(a),
        collapse(a.recipient).len() > 0,
        !crate::address::leads_with_digit(collapse(a.recipient)),
        collapse(a.street1).len() > 0,
    ensures
        parsed(us_block(a)) == (AddressView {
            recipient: collapse(a.recipient),
            street1: collapse(a.street1),
            street2: collapse(a.street2),
            city: collapse(a.city),
            region: printed_region(a),
            postal_code: printed_postal(a),
            country: seq![],
        }),
{
    law_parse_reads_us_block(a);
    let l = street_lines(a);
    let s2 = collapse(a.street2);
    assert(l =~= seq![collapse(a.recipient), collapse(a.street1)] + line_if(s2));
    assert(l[0] == collapse(a.recipient));
    assert(l.drop_first() =~= seq![collapse(a.street1)] + line_if(s2));
    if s2.len() > 0 {
        assert(l.drop_first().drop_first() =~= seq![s2]);
        assert(join(seq![s2], ", "@) == s2);
    } else {
        assert(l.drop_first().drop_first() =~= Seq::<Seq<char>>::empty());
        assert(s2 =~= Seq::<char>::empty());
    }
    let got = parse_lead(read_locality(a), l);
    assert(got.recipient == collapse(a.recipient));
    assert(got.street1 == collapse(a.street1));
    assert(got.street2 == s2);
}

/// `validate` checks the region against the state table exactly for the
/// addresses whose US block has no country line: a blank or US country.
/// For any other address, the only region problem is a blank region.
pub proof fn law_region_check_matches_country_line(a: AddressView)
    ensures
        (us_country_lines(a).len() == 0) == is_domestic_address(a),
        !is_domestic_address(a) ==> region_issues(a) == if collapse(a.region).len() == 0 {
            seq![IssueView::MissingRegion]
        } else {
            Seq::<IssueView>::empty()
        },
{
}

/// `ascii_lower` keeps whitespace whitespace, and upper-cases like the
/// character it came from.
proof fn lemma_ascii_lower_facts()
    ensures
        forall|c: char| #[trigger] is_space(ascii_lower(c)) == is_space(c),
        forall|c: char| #[trigger] char_upper(ascii_lower(c)) == char_upper(c),
        ascii_lower(' ') == ' ',
{
    assert forall|c: char| #[trigger] char_upper(ascii_lower(c)) == char_upper(c) by {
        if 'A' <= c && c <= 'Z' {
            let l = ascii_lower(c);
            assert('a' <= l && l <= 'z');
            assert(ascii_upper(l) == c);
        }
    }
}

/// `ascii_upper` keeps whitespace whitespace, and upper-cases like the
/// character it came from.
proof fn lemma_ascii_upper_facts()
    ensures
        forall|c: char| #[trigger] is_space(ascii_upper(c)) == is_space(c),
        forall|c: char| #[trigger] char_upper(ascii_upper(c)) == char_upper(c),
        ascii_upper(' ') == ' ',
{
    assert forall|c: char| #[trigger] char_upper(ascii_upper(c)) == char_upper(c) by {
        if 'a' <= c && c <= 'z' {
            let u = ascii_upper(c);
            assert('A' <= u && u <= 'Z');
            assert(ascii_upper(u) == u);
        }
    }
}

/// `normalize_us_region` ignores runs of whitespace: the input and its
/// normalized whitespace give the same result.
pub proof fn law_region_code_ignores_whitespace(s: Seq<char>)
    ensures
        region_code(collapse(s)) == region_code(s),
{
    lemma_collapse_idempotent(s);
}

/// `normalize_us_region` ignores ASCII case: the input, its ASCII
/// lower-case form and its ASCII upper-case form give the same result.
pub proof fn law_region_code_ignores_ascii_case(s: Seq<char>)
    ensures
        region_code(map_chars(s, |c: char| ascii_lower(c))) == region_code(s),
        region_code(map_chars(s, |c: char| ascii_upper(c))) == region_code(s),
{
    let lo = |c: char| ascii_lower(c);
    let up = |c: char| ascii_upper(c);
    lemma_ascii_lower_facts();
    lemma_ascii_upper_facts();
    assert forall|c: char| #[trigger] is_space(lo(c)) == is_space(c) by {
        assert(is_space(ascii_lower(c)) == is_space(c));
    }
    assert forall|c: char| #[trigger] char_upper(lo(c)) == char_upper(c) by {
        assert(char_upper(ascii_lower(c)) == char_upper(c));
    }
    assert forall|c: char| #[trigger] is_space(up(c)) == is_space(c) by {
        assert(is_space(ascii_upper(c)) == is_space(c));
    }
    assert forall|c: char| #[trigger] char_upper(up(c)) == char_upper(c) by {
        assert(char_upper(ascii_upper(c)) == char_upper(c));
    }
    lemma_collapse_map(s, lo);
    lemma_upper_map(collapse(s), lo);
    lemma_collapse_map(s, up);
    lemma_upper_map(collapse(s), up);
}

/// The country line of a US block is its last line: for a blank or US
/// country the block is the block without the country, and otherwise it
/// is that block with the upper-cased country added as one more line.
pub proof fn law_us_block_country_line(a: AddressView)
    ensures
        ({
            let b = AddressView { country: seq![], ..a };
            let c = collapse(a.country);
            if c.len() == 0 || is_domestic(c) {
                us_block(a) == us_block(b)
            } else if us_block(b).len() == 0 {
                us_block(a) == upper(c)
            } else {
                us_block(a) == us_block(b) + newline() + upper(c)
            }
        }),
{
    let b = AddressView { country: seq![], ..a };
    let l = street_lines(a) + line_if(us_locality(a));
    assert(street_lines(b) == street_lines(a));
    assert(us_locality(b) == us_locality(a));
    assert(collapse(b.country) == Seq::<char>::empty());
    assert(us_country_lines(b) =~= Seq::<Seq<char>>::empty());
    assert(us_lines(b) =~= l);
    assert forall|i: int| 0 <= i < l.len() implies (#[trigger] l[i]).len() > 0 by {}
    crate::text::lemma_join_empty(l, newline());
    let c = collapse(a.country);
    if c.len() == 0 || is_domestic(c) {
        assert(us_lines(a) =~= l);
    } else {
        assert(us_lines(a) =~= l.push(upper(c)));
        lemma_join_push(l, newline(), upper(c));
    }
}

/// Every entry of the state table normalizes to its code, whether given by
/// its full name or by its code.
pub proof fn law_table_entries_normalize(i: usize)
    requires
        i < STATE_COUNT,
    ensures
        region_code(state_name(i)) == Some(state_code(i)),
        region_code(state_code(i)) == Some(state_code(i)),
{
    let n = state_name(i);
    lemma_name_facts(i);
    lemma_collapse_single_spaced(n);
    lemma_upper_ascii(n);
    let u = upper(n);
    assert forall|j: usize| j < i implies upper(#[trigger] state_name(j)) != u by {
        let m = state_name(j);
        lemma_name_facts(j);
        lemma_upper_ascii(m);
        if upper(m) == u {
            assert(upper(m)[0] == u[0]);
            assert(upper(m)[1] == u[1]);
            assert(upper(m)[m.len() - 1] == u[n.len() - 1]);
            assert(name_key(m) == name_key(n));
        }
    }
    lemma_first_name_match_skip(u, i);
    assert(first_name_match(u, i) == Some(i));
    lemma_code_is_canonical(i);
    lemma_codes_are_upper_letters(i);
    assert(is_state_code(state_code(i)));
}

/// `normalize_us_postal_code` accepts exactly the inputs with five or nine
/// ASCII digits, whatever digits they are, and gives back those digits in
/// order: all five as they are, or nine with a hyphen after the fifth.
pub proof fn law_postal_code_accepts_five_or_nine_digits(s: Seq<char>)
    ensures
        postal_code(s) is Some <==> (digits(s).len() == 5 || digits(s).len() == 9),
        postal_code(s) matches Some(p) ==> {
            &&& digits(p) == digits(s)
            &&& p.len() == 5 || (p.len() == 10 && p[5] == '-')
            &&& forall|k: int| 0 <= k < p.len() && k != 5 ==> is_digit(#[trigger] p[k])
        },
{
    law_postal_code_idempotent(s);
    lemma_digits_are_digits(s);
    if let Some(p) = postal_code(s) {
        let d = digits(s);
        if d.len() == 5 {
            lemma_digits_of_digits(d);
        } else {
            assert forall|i: int| 0 <= i < d.take(5).len() implies is_digit(#[trigger] d.take(5)[i]) by {
                assert(d.take(5)[i] == d[i]);
            }
            assert forall|i: int| 0 <= i < d.skip(5).len() implies is_digit(#[trigger] d.skip(5)[i]) by {
                assert(d.skip(5)[i] == d[i + 5]);
            }
            lemma_digits_of_digits(d.take(5));
            lemma_digits_of_digits(d.skip(5));
            lemma_digits_concat(d.take(5) + seq!['-'], d.skip(5));
            lemma_digits_concat(d.take(5), seq!['-']);
            assert(!is_digit('-'));
            assert(digits(seq!['-']) == digits(seq!['-'].drop_last()));
            assert(digits(seq!['-']) =~= Seq::<char>::empty());
            assert(digits(p) =~= d);
            assert forall|k: int| 0 <= k < p.len() && k != 5 implies is_digit(#[trigger] p[k]) by {
                if k < 5 {
                    assert(p[k] == d[k]);
                } else {
                    assert(p[k] == d[k - 1]);
                }
            }
        }
    }
}

/// `parse_us_address` never leaves a postal code unnormalized: whenever
/// the postal code it reads is a valid US code, it is already in the
/// normalized form.
pub proof fn law_parsed_postal_code_is_normalized(input: Seq<char>)
    ensures
        postal_code(parsed(input).postal_code) matches Some(p) ==> p == parsed(input).postal_code,
{
    let segs = segments(input);
    let with_country = segs.len() > 0 && is_domestic(segs.last());
    let rest = if with_country { segs.drop_last() } else { segs };
    assert(digits(Seq::<char>::empty()) =~= Seq::<char>::empty());
    if rest.len() > 0 {
        let tokens = words(rest.last());
        if tokens.len() > 0 {
            law_postal_code_idempotent(tokens.last());
        }
    }
}

/// Naming the US as the country, in any accepted spelling, formats an
/// address as leaving the country blank does; and a blank country gives
/// the US layout.
pub proof fn law_format_address_us_country_is_blank_country(a: AddressView, c: Seq<char>)
    requires
        is_domestic(c),
    ensures
        block(AddressView { country: c, ..a }) == block(AddressView { country: seq![], ..a }),
        block(AddressView { country: seq![], ..a }) == us_block(AddressView { country: seq![], ..a }),
        us_block(AddressView { country: c, ..a }) == us_block(AddressView { country: seq![], ..a }),
{
    let b = AddressView { country: seq![], ..a };
    let with_c = AddressView { country: c, ..a };
    assert(collapse(b.country).len() == 0);
    lemma_collapse_idempotent(c);
    assert(is_domestic(collapse(c)));
    law_us_block_country_line(with_c);
    assert(AddressView { country: seq![], ..with_c } == b);
}

/// A country that is not blank and does not name the US gives the
/// international layout.
pub proof fn law_format_address_foreign_country(a: AddressView)
    requires
        collapse(a.country).len() > 0,
        !is_domestic(a.country),
    ensures
        block(a) == intl_block(a),
{
    lemma_collapse_idempotent(a.country);
}

/// What `validate` reports, issue by issue: a recipient, first street line,
/// city or region of nothing but whitespace is missing; a non-blank region
/// of a domestic address (blank or US country) that `normalize_us_region`
/// does not recognize is invalid; a non-blank postal code whose count of
/// ASCII digits is neither five nor nine is invalid. Each bad text is
/// reported with its whitespace normalized, and nothing else is reported.
pub proof fn law_validate_reports(a: AddressView)
    ensures
        issues(a).contains(IssueView::MissingRecipient) == all_space(a.recipient),
        issues(a).contains(IssueView::MissingStreet) == all_space(a.street1),
        issues(a).contains(IssueView::MissingCity) == all_space(a.city),
        issues(a).contains(IssueView::MissingRegion) == all_space(a.region),
        forall|x: Seq<char>|
            #![trigger issues(a).contains(IssueView::InvalidRegion(x))]
            issues(a).contains(IssueView::InvalidRegion(x)) == (!all_space(a.region) && (all_space(
                a.country,
            ) || is_domestic(a.country)) && region_code(a.region) is None && x == collapse(
                a.region,
            )),
        forall|x: Seq<char>|
            #![trigger issues(a).contains(IssueView::InvalidPostalCode(x))]
            issues(a).contains(IssueView::InvalidPostalCode(x)) == (!all_space(a.postal_code)
                && digits(a.postal_code).len() != 5 && digits(a.postal_code).len() != 9 && x
                == collapse(a.postal_code)),
{
    lemma_collapse_blank(a.recipient);
    lemma_collapse_blank(a.street1);
    lemma_collapse_blank(a.city);
    lemma_collapse_blank(a.region);
    lemma_collapse_blank(a.country);
    lemma_collapse_blank(a.postal_code);
    lemma_collapse_idempotent(a.country);
    lemma_collapse_idempotent(a.region);
    lemma_digits_collapse(a.postal_code);
    let i = issues(a);
    let parts = seq![
        blank_issue(a.recipient, IssueView::MissingRecipient),
        blank_issue(a.street1, IssueView::MissingStreet),
        blank_issue(a.city, IssueView::MissingCity),
        region_issues(a),
        postal_issues(a),
    ];
    assert forall|e: IssueView| #[trigger] i.contains(e) == (parts[0].contains(e) || parts[1].contains(e)
        || parts[2].contains(e) || parts[3].contains(e) || parts[4].contains(e)) by {
        let b0 = parts[0];
        let b1 = b0 + parts[1];
        let b2 = b1 + parts[2];
        let b3 = b2 + parts[3];
        assert(i == b3 + parts[4]);
        lemma_contains_concat(b0, parts[1], e);
        lemma_contains_concat(b1, parts[2], e);
        lemma_contains_concat(b2, parts[3], e);
        lemma_contains_concat(b3, parts[4], e);
    }
    assert forall|e: IssueView, q: Seq<IssueView>| q.len() == 1 ==> (#[trigger] q.contains(e) == (q[0] == e)) by {
        if q.len() == 1 && q[0] == e {
            assert(q[0] == e);
        }
    }
    assert forall|e: IssueView, q: Seq<IssueView>| q.len() == 0 ==> !#[trigger] q.contains(e) by {}
    assert(i.contains(IssueView::MissingRecipient) == all_space(a.recipient));
    assert(i.contains(IssueView::MissingStreet) == all_space(a.street1));
    assert(i.contains(IssueView::MissingCity) == all_space(a.city));
    assert(i.contains(IssueView::MissingRegion) == all_space(a.region));
}

/// A sequence holds an element exactly when one of its two parts does.
proof fn lemma_contains_concat(x: Seq<IssueView>, y: Seq<IssueView>, e: IssueView)
    ensures
        (x + y).contains(e) == (x.contains(e) || y.contains(e)),
{
    if x.contains(e) {
        let k = choose|k: int| 0 <= k < x.len() && x[k] == e;
        assert((x + y)[k] == e);
    }
    if y.contains(e) {
        let k = choose|k: int| 0 <= k < y.len() && y[k] == e;
        assert((x + y)[x.len() + k] == e);
    }
    if (x + y).contains(e) {
        let k = choose|k: int| 0 <= k < (x + y).len() && (x + y)[k] == e;
        if k < x.len() {
            assert(x[k] == e);
        } else {
            assert(y[k - x.len()] == e);
        }
    }
}

/// Collapsing whitespace keeps the digits.
proof fn lemma_digits_collapse(s: Seq<char>)
    ensures
        digits(collapse(s)) == digits(s),
    decreases s.len(),
{
    if s.len() > 0 {
        let p = s.drop_last();
        let c = s.last();
        lemma_digits_collapse(p);
        lemma_collapse_push(p, c);
        assert(p.push(c) =~= s);
        let cp = collapse(p);
        if is_space(c) {
            assert(!is_digit(c));
        } else if p.len() > 0 && !is_space(p.last()) {
            assert(cp.push(c).drop_last() =~= cp);
        } else if cp.len() > 0 {
            lemma_digits_concat(cp + space(), seq![c]);
            lemma_digits_concat(cp, space());
            assert(space().drop_last() =~= Seq::<char>::empty());
            assert(!is_digit(' '));
            assert(digits(space()) == digits(space().drop_last()));
            assert(seq![c].drop_last() =~= Seq::<char>::empty());
            assert(digits(cp + space()) =~= digits(cp));
        } else {
            assert(seq![c].drop_last() =~= Seq::<char>::empty());
            assert(Seq::<char>::empty().push(c) =~= seq![c]);
        }
    }
}

/// The non-blank pieces among the whitespace-normalized recipient and
/// street lines, in that order, joined by line breaks.
pub open spec fn name_and_street_head(a: AddressView) -> Seq<char> {
    join(nonblank(seq![collapse(a.recipient), collapse(a.street1), collapse(a.street2)]), newline())
}

/// The name and street lines, as `nonblank` picks them.
proof fn lemma_street_lines_nonblank(a: AddressView)
    ensures
        street_lines(a) == nonblank(
            seq![collapse(a.recipient), collapse(a.street1), collapse(a.street2)],
        ),
{
    let r = collapse(a.recipient);
    let s1 = collapse(a.street1);
    let s2 = collapse(a.street2);
    let e = Seq::<Seq<char>>::empty();
    crate::text::lemma_nonblank_push(e, r);
    crate::text::lemma_nonblank_push(e.push(r), s1);
    crate::text::lemma_nonblank_push(e.push(r).push(s1), s2);
    assert(e.push(r).push(s1).push(s2) =~= seq![r, s1, s2]);
    assert(street_lines(a) =~= nonblank(seq![r, s1, s2]));
}

/// A block that starts with the name and street lines, as whole lines.
pub open spec fn starts_with_lines(b: Seq<char>, head: Seq<char>) -> bool {
    &&& head.len() <= b.len()
    &&& b.take(head.len() as int) == head
    &&& head.len() == 0 || b.len() == head.len() || b[head.len() as int] == '\n'
}

/// Joined lines start with the join of their first part.
proof fn lemma_join_starts_with(l: Seq<Seq<char>>, m: Seq<Seq<char>>)
    ensures
        starts_with_lines(join(l + m, newline()), join(l, newline())),
{
    let j = join(l + m, newline());
    let h = join(l, newline());
    if l.len() == 0 {
        assert(h.len() == 0);
        assert(j.take(0) =~= h);
    } else if m.len() == 0 {
        assert(l + m =~= l);
        assert(j.take(h.len() as int) =~= h);
    } else {
        lemma_join_concat(l, m, newline());
        assert(j.take(h.len() as int) =~= h);
        assert(j[h.len() as int] == '\n');
    }
}

/// Both layouts start with the recipient, the first and the second street
/// line, whitespace-normalized, each on a line of its own, in that order,
/// the blank ones left out.
pub proof fn law_blocks_start_with_name_and_streets(a: AddressView)
    ensures
        starts_with_lines(intl_block(a), name_and_street_head(a)),
        starts_with_lines(us_block(a), name_and_street_head(a)),
{
    lemma_street_lines_nonblank(a);
    let l = street_lines(a);
    lemma_join_starts_with(l, capital_line(intl_locality(a)) + capital_line(collapse(a.country)));
    assert(intl_lines(a) =~= l + (capital_line(intl_locality(a)) + capital_line(collapse(a.country))));
    lemma_join_starts_with(l, line_if(us_locality(a)) + us_country_lines(a));
    assert(us_lines(a) =~= l + (line_if(us_locality(a)) + us_country_lines(a)));
}

/// The non-blank pieces kept by `nonblank`, joined by `sep`, where each
/// piece is added to the ones before it.
proof fn lemma_join_nonblank_push(ws: Seq<Seq<char>>, w: Seq<char>, sep: Seq<char>)
    ensures
        join(nonblank(ws.push(w)), sep) == if w.len() == 0 {
            join(nonblank(ws), sep)
        } else if nonblank(ws).len() == 0 {
            w
        } else {
            join(nonblank(ws), sep) + sep + w
        },
        (join(nonblank(ws), sep).len() == 0) == (nonblank(ws).len() == 0),
{
    crate::text::lemma_nonblank_push(ws, w);
    lemma_nonblank_nonempty(ws);
    crate::text::lemma_join_empty(nonblank(ws), sep);
    if w.len() > 0 {
        lemma_join_push(nonblank(ws), sep, w);
    }
}

/// `nonblank` keeps only non-empty pieces.
proof fn lemma_nonblank_nonempty(ws: Seq<Seq<char>>)
    ensures
        forall|i: int| 0 <= i < nonblank(ws).len() ==> (#[trigger] nonblank(ws)[i]).len() > 0,
    decreases ws.len(),
{
    if ws.len() > 0 {
        lemma_nonblank_nonempty(ws.drop_last());
        let n = nonblank(ws.drop_last());
        assert forall|i: int| 0 <= i < nonblank(ws).len() implies (#[trigger] nonblank(ws)[i]).len()
            > 0 by {
            if i < n.len() {
                assert(nonblank(ws)[i] == n[i]);
            }
        }
    }
}

/// Two pieces with `sep` between them, the blank ones left out.
proof fn lemma_attach_is_join(x: Seq<char>, sep: Seq<char>, y: Seq<char>)
    ensures
        crate::address::attach(x, sep, y) == join(nonblank(seq![x, y]), sep),
{
    let e = Seq::<Seq<char>>::empty();
    lemma_join_nonblank_push(e, x, sep);
    lemma_join_nonblank_push(e.push(x), y, sep);
    assert(e.push(x).push(y) =~= seq![x, y]);
    assert(nonblank(e) =~= e);
    crate::text::lemma_nonblank_push(e, x);
}

/// Three pieces with `sep` between each two, the blank ones left out.
proof fn lemma_attach3_is_join(x: Seq<char>, y: Seq<char>, z: Seq<char>, sep: Seq<char>)
    ensures
        crate::address::attach(crate::address::attach(x, sep, y), sep, z) == join(
            nonblank(seq![x, y, z]),
            sep,
        ),
{
    lemma_attach_is_join(x, sep, y);
    let e = Seq::<Seq<char>>::empty();
    lemma_join_nonblank_push(e, x, sep);
    lemma_join_nonblank_push(e.push(x), y, sep);
    lemma_join_nonblank_push(e.push(x).push(y), z, sep);
    crate::text::lemma_nonblank_push(e, x);
    assert(nonblank(e) =~= e);
    assert(e.push(x).push(y) =~= seq![x, y]);
    assert(e.push(x).push(y).push(z) =~= seq![x, y, z]);
}

/// The international layout, line by line: the non-blank recipient and
/// street lines, then the non-blank city, region and postal code joined by
/// single spaces and upper-cased, then the upper-cased country, each of the
/// last two only when its text is not blank. Fields are
/// whitespace-normalized and given as they are otherwise.
pub proof fn law_international_layout(a: AddressView)
    ensures
        ({
            let head = nonblank(seq![collapse(a.recipient), collapse(a.street1), collapse(a.street2)]);
            let locality = join(
                nonblank(seq![collapse(a.city), collapse(a.region), collapse(a.postal_code)]),
                space(),
            );
            let country = collapse(a.country);
            intl_block(a) == join(
                head + (if locality.len() > 0 {
                    seq![upper(locality)]
                } else {
                    seq![]
                }) + (if country.len() > 0 {
                    seq![upper(country)]
                } else {
                    seq![]
                }),
                newline(),
            )
        }),
{
    lemma_street_lines_nonblank(a);
    lemma_attach3_is_join(collapse(a.city), collapse(a.region), collapse(a.postal_code), space());
}

/// The US layout, line by line: the non-blank recipient and street lines;
/// then the locality, which is the city and the region joined by `", "`,
/// then the postal code after a space, blank parts and their separators
/// left out, with the region as `normalize_us_region` gives it when it
/// recognizes it and the postal code as `normalize_us_postal_code` gives it
/// when it accepts it; then, for a non-blank country that does not name the
/// US, the upper-cased country. Fields are whitespace-normalized.
pub proof fn law_us_layout(a: AddressView)
    ensures
        ({
            let head = nonblank(seq![collapse(a.recipient), collapse(a.street1), collapse(a.street2)]);
            let region = or_else(region_code(a.region), collapse(a.region));
            let postal = or_else(postal_code(a.postal_code), collapse(a.postal_code));
            let locality = join(
                nonblank(seq![join(nonblank(seq![collapse(a.city), region]), ", "@), postal]),
                space(),
            );
            let country = collapse(a.country);
            us_block(a) == join(
                head + (if locality.len() > 0 {
                    seq![locality]
                } else {
                    seq![]
                }) + (if country.len() > 0 && !is_domestic(a.country) {
                    seq![upper(country)]
                } else {
                    seq![]
                }),
                newline(),
            )
        }),
{
    lemma_street_lines_nonblank(a);
    lemma_collapse_idempotent(a.region);
    lemma_collapse_idempotent(a.country);
    lemma_digits_collapse(a.postal_code);
    let region = or_else(region_code(a.region), collapse(a.region));
    let postal = or_else(postal_code(a.postal_code), collapse(a.postal_code));
    assert(postal_code(collapse(a.postal_code)) == postal_code(a.postal_code));
    lemma_attach_is_join(collapse(a.city), ", "@, region);
    lemma_attach_is_join(crate::address::attach(collapse(a.city), ", "@, region), space(), postal);
}

/// The non-whitespace characters of `s`, in order.
pub open spec fn visible(s: Seq<char>) -> Seq<char>
    decreases s.len(),
{
    if s.len() == 0 {
        seq![]
    } else if is_space(s.last()) {
        visible(s.drop_last())
    } else {
        visible(s.drop_last()).push(s.last())
    }
}

/// `visible` across a concatenation.
proof fn lemma_visible_concat(x: Seq<char>, y: Seq<char>)
    ensures
        visible(x + y) == visible(x) + visible(y),
    decreases y.len(),
{
    if y.len() == 0 {
        assert(x + y =~= x);
        assert(visible(x) + visible(y) =~= visible(x));
    } else {
        lemma_visible_concat(x, y.drop_last());
        assert((x + y).drop_last() =~= x + y.drop_last());
        assert((x + y).last() == y.last());
        assert((visible(x) + visible(y.drop_last())).push(y.last()) =~= visible(x) + visible(
            y.drop_last(),
        ).push(y.last()));
    }
}

/// `normalize_whitespace` keeps every non-whitespace character, in order,
/// and adds none: only whitespace is removed or turned into single spaces.
pub proof fn law_normalize_whitespace_keeps_text(s: Seq<char>)
    ensures
        visible(collapse(s)) == visible(s),
    decreases s.len(),
{
    if s.len() > 0 {
        let p = s.drop_last();
        let c = s.last();
        law_normalize_whitespace_keeps_text(p);
        lemma_collapse_push(p, c);
        assert(p.push(c) =~= s);
        let cp = collapse(p);
        if !is_space(c) {
            if p.len() > 0 && !is_space(p.last()) {
                assert(cp.push(c).drop_last() =~= cp);
            } else if cp.len() > 0 {
                lemma_visible_concat(cp + space(), seq![c]);
                lemma_visible_concat(cp, space());
                assert(space().drop_last() =~= Seq::<char>::empty());
                assert(visible(space()) == visible(space().drop_last()));
                assert(seq![c].drop_last() =~= Seq::<char>::empty());
                assert(visible(cp + space()) =~= visible(cp));
            } else {
                assert(seq![c].drop_last() =~= Seq::<char>::empty());
                assert(Seq::<char>::empty().push(c) =~= seq![c]);
            }
        }
    }
}

/// `normalize_us_region` recognizes only the table: its result is the code
/// of an entry whose code or upper-cased name is the upper-cased,
/// whitespace-normalized input.
pub proof fn law_region_code_from_table(s: Seq<char>)
    ensures
        region_code(s) matches Some(c) ==> exists|i: usize|
            i < STATE_COUNT && c == #[trigger] state_code(i) && (upper(collapse(s)) == c || upper(
                collapse(s),
            ) == upper(state_name(i))),
{
    if let Some(c) = region_code(s) {
        let u = upper(collapse(s));
        if collapse(s).len() == 2 {
            let i = choose|i: usize| i < STATE_COUNT && #[trigger] state_code(i) == u;
            assert(state_code(i) == c);
        } else {
            lemma_first_name_match_in_table(u, 0);
            lemma_first_name_match_found(u, 0);
            let i = first_name_match(u, 0).unwrap();
            assert(state_code(i) == c);
        }
    }
}

/// The entry that `first_name_match` finds has the name looked for.
proof fn lemma_first_name_match_found(u: Seq<char>, i: usize)
    ensures
        first_name_match(u, i) matches Some(j) ==> upper(state_name(j)) == u,
    decreases STATE_COUNT - i,
{
    if i < STATE_COUNT {
        lemma_first_name_match_found(u, (i + 1) as usize);
    }
}

/// The spellings of the United States that a country field may use.
pub open spec fn us_spelling(u: Seq<char>) -> bool {
    ||| u == "US"@
    ||| u == "USA"@
    ||| u == "U.S."@
    ||| u == "U.S.A."@
    ||| u == "UNITED STATES"@
    ||| u == "UNITED STATES OF AMERICA"@
}

/// A country field names the US whenever it is one of the US spellings in
/// any ASCII case and with any runs of whitespace, and only when its
/// upper-cased, whitespace-normalized text is one of them.
pub proof fn law_domestic_spellings(s: Seq<char>)
    ensures
        us_spelling(map_chars(collapse(s), |c: char| ascii_upper(c))) ==> is_domestic(s),
        is_domestic(s) ==> us_spelling(upper(collapse(s))),
{
    let c = collapse(s);
    let m = map_chars(c, |x: char| ascii_upper(x));
    if us_spelling(m) {
        reveal_strlit("US");
        reveal_strlit("USA");
        reveal_strlit("U.S.");
        reveal_strlit("U.S.A.");
        reveal_strlit("UNITED STATES");
        reveal_strlit("UNITED STATES OF AMERICA");
        assert(is_ascii_text(m));
        assert(is_ascii_text(c)) by {
            assert forall|k: int| 0 <= k < c.len() implies #[trigger] c[k] <= '\u{7f}' by {
                assert(m[k] == ascii_upper(c[k]));
            }
        }
        lemma_upper_ascii(c);
        assert(upper(c) =~= m);
    }
}

} // verus!
