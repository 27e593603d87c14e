//! Addresses: normalization of single fields, validation, formatting and
//! parsing, each stated over the character sequences of the fields.
use vstd::prelude::*;

use crate::states::{state_at, state_code, state_name, STATE_COUNT};
use crate::text::{
    chars_of, collapse, collapse_chars, digits, digits_of, is_digit, join, join_of,
    same_chars, segments, segments_of, space, string_of, upper, upper_chars, views, words,
    words_of,
};

verus! {

broadcast use vstd::string::group_string_axioms;

/// A postal address broken into the fields most mail systems expect.
///
/// Fields are plain `String`s rather than an enum of "known good" values:
/// addresses arrive messy, and the library's job is to clean that up, not
/// to reject it before the caller gets a chance to look at it.
#[derive(Debug, Clone, PartialEq, Eq)]
pub struct Address {
    pub recipient: String,
    pub street1: String,
    pub street2: String,
    pub city: String,
    pub region: String,
    pub postal_code: String,
    pub country: String,
}

/// The fields of an address as character sequences.
pub struct AddressView {
    pub recipient: Seq<char>,
    pub street1: Seq<char>,
    pub street2: Seq<char>,
    pub city: Seq<char>,
    pub region: Seq<char>,
    pub postal_code: Seq<char>,
    pub country: Seq<char>,
}

impl AddressView {
    /// The address with every field empty.
    pub open spec fn blank() -> AddressView {
        AddressView {
            recipient: seq![],
            street1: seq![],
            street2: seq![],
            city: seq![],
            region: seq![],
            postal_code: seq![],
            country: seq![],
        }
    }
}

impl View for Address {
    type V = AddressView;

    open spec fn view(&self) -> AddressView {
        AddressView {
            recipient: self.recipient@,
            street1: self.street1@,
            street2: self.street2@,
            city: self.city@,
            region: self.region@,
            postal_code: self.postal_code@,
            country: self.country@,
        }
    }
}

impl Default for Address {
    /// The address with every field empty.
    fn default() -> (a: Address)
        ensures
            a@ == AddressView::blank(),
    {
        Address {
            recipient: String::new(),
            street1: String::new(),
            street2: String::new(),
            city: String::new(),
            region: String::new(),
            postal_code: String::new(),
            country: String::new(),
        }
    }
}

/// A single problem found by `validate`.
///
/// Kept as a small enum rather than raw strings so callers can match on the
/// kind of problem instead of parsing text.
#[derive(Debug, Clone, PartialEq, Eq)]
pub enum ValidationIssue {
    MissingRecipient,
    MissingStreet,
    MissingCity,
    MissingRegion,
    InvalidRegion(String),
    InvalidPostalCode(String),
}

/// A validation issue with its text as a character sequence.
pub enum IssueView {
    MissingRecipient,
    MissingStreet,
    MissingCity,
    MissingRegion,
    InvalidRegion(Seq<char>),
    InvalidPostalCode(Seq<char>),
}

impl View for ValidationIssue {
    type V = IssueView;

    open spec fn view(&self) -> IssueView {
        match self {
            ValidationIssue::MissingRecipient => IssueView::MissingRecipient,
            ValidationIssue::MissingStreet => IssueView::MissingStreet,
            ValidationIssue::MissingCity => IssueView::MissingCity,
            ValidationIssue::MissingRegion => IssueView::MissingRegion,
            ValidationIssue::InvalidRegion(raw) => IssueView::InvalidRegion(raw@),
            ValidationIssue::InvalidPostalCode(raw) => IssueView::InvalidPostalCode(raw@),
        }
    }
}

/// The views of a list of issues.
pub open spec fn issue_views(v: Seq<ValidationIssue>) -> Seq<IssueView> {
    v.map_values(|i: ValidationIssue| i@)
}

/// The one-line message that describes an issue.
pub open spec fn issue_message(i: IssueView) -> Seq<char> {
    match i {
        IssueView::MissingRecipient => "recipient is missing"@,
        IssueView::MissingStreet => "street1 is missing"@,
        IssueView::MissingCity => "city is missing"@,
        IssueView::MissingRegion => "region is missing"@,
        IssueView::InvalidRegion(raw) => "region '"@ + raw
            + "' is not a recognized US state, DC, or territory"@,
        IssueView::InvalidPostalCode(raw) => "postal code '"@ + raw
            + "' is not a valid 5 or 9 digit US code"@,
    }
}

impl ValidationIssue {
    /// The one-line message that describes this issue.
    pub fn message(&self) -> (r: String)
        ensures
            r@ == issue_message(self@),
    {
        match self {
            ValidationIssue::MissingRecipient => String::from_str("recipient is missing"),
            ValidationIssue::MissingStreet => String::from_str("street1 is missing"),
            ValidationIssue::MissingCity => String::from_str("city is missing"),
            ValidationIssue::MissingRegion => String::from_str("region is missing"),
            ValidationIssue::InvalidRegion(raw) => {
                let mut m = String::from_str("region '");
                m.append(raw.as_str());
                m.append("' is not a recognized US state, DC, or territory");
                m
            },
            ValidationIssue::InvalidPostalCode(raw) => {
                let mut m = String::from_str("postal code '");
                m.append(raw.as_str());
                m.append("' is not a valid 5 or 9 digit US code");
                m
            },
        }
    }
}

// ---------------------------------------------------------------------------
// Field-level specifications
// ---------------------------------------------------------------------------

/// Whether a country field names the United States: its whitespace
/// collapsed and upper-cased, it is one of the accepted spellings.
pub open spec fn is_domestic(country: Seq<char>) -> bool {
    let u = upper(collapse(country));
    ||| u == "US"@
    ||| u == "USA"@
    ||| u == "U.S."@
    ||| u == "U.S.A."@
    ||| u == "UNITED STATES"@
    ||| u == "UNITED STATES OF AMERICA"@
}

/// A US postal code from the digits of `s`, whatever else `s` holds: the
/// five digits as they are, nine digits as `NNNNN-NNNN`, any other count
/// none.
pub open spec fn postal_code(s: Seq<char>) -> Option<Seq<char>> {
    let d = digits(s);
    if d.len() == 5 {
        Some(d)
    } else if d.len() == 9 {
        Some(d.take(5) + seq!['-'] + d.skip(5))
    } else {
        None
    }
}

/// Whether `u` is one of the two-letter codes of the state table.
pub open spec fn is_state_code(u: Seq<char>) -> bool {
    exists|i: usize| i < STATE_COUNT && #[trigger] state_code(i) == u
}

/// The first entry, from `i` on, whose upper-cased name is `u`.
pub open spec fn first_name_match(u: Seq<char>, i: usize) -> Option<usize>
    decreases STATE_COUNT - i,
{
    if i >= STATE_COUNT {
        None
    } else if upper(state_name(i)) == u {
        Some(i)
    } else {
        first_name_match(u, (i + 1) as usize)
    }
}

/// The canonical two-letter code of a US state, DC or territory given by
/// name or by code, compared case-insensitively after whitespace is
/// collapsed: a two-character input is looked up among the codes, any
/// other among the names.
pub open spec fn region_code(s: Seq<char>) -> Option<Seq<char>> {
    let cleaned = collapse(s);
    let u = upper(cleaned);
    if cleaned.len() == 0 {
        None
    } else if cleaned.len() == 2 {
        if is_state_code(u) {
            Some(u)
        } else {
            None
        }
    } else {
        match first_name_match(u, 0) {
            Some(i) => Some(state_code(i)),
            None => None,
        }
    }
}

/// `o`'s value, or `d` when there is none.
pub open spec fn or_else(o: Option<Seq<char>>, d: Seq<char>) -> Seq<char> {
    match o {
        Some(v) => v,
        None => d,
    }
}

// ---------------------------------------------------------------------------
// Address-level specifications
// ---------------------------------------------------------------------------

/// `[issue]` when `field` is blank once whitespace is collapsed.
pub open spec fn blank_issue(field: Seq<char>, issue: IssueView) -> Seq<IssueView> {
    if collapse(field).len() == 0 {
        seq![issue]
    } else {
        seq![]
    }
}

/// The region problem of an address, if any: a blank region is missing; a
/// region of a domestic address (blank or US country) that is not in the
/// state table is invalid; a foreign address's region is not checked.
pub open spec fn region_issues(a: AddressView) -> Seq<IssueView> {
    let region = collapse(a.region);
    let country = collapse(a.country);
    if region.len() == 0 {
        seq![IssueView::MissingRegion]
    } else if (country.len() == 0 || is_domestic(country)) && region_code(region) is None {
        seq![IssueView::InvalidRegion(region)]
    } else {
        seq![]
    }
}

/// The postal-code problem of an address, if any: a non-blank code that is
/// not a US postal code.
pub open spec fn postal_issues(a: AddressView) -> Seq<IssueView> {
    let postal = collapse(a.postal_code);
    if postal.len() > 0 && postal_code(postal) is None {
        seq![IssueView::InvalidPostalCode(postal)]
    } else {
        seq![]
    }
}

/// All problems of an address, in field order.
pub open spec fn issues(a: AddressView) -> Seq<IssueView> {
    blank_issue(a.recipient, IssueView::MissingRecipient) + blank_issue(
        a.street1,
        IssueView::MissingStreet,
    ) + blank_issue(a.city, IssueView::MissingCity) + region_issues(a) + postal_issues(a)
}

/// `a` and `b` with `sep` between them, or whichever is not empty.
pub open spec fn attach(a: Seq<char>, sep: Seq<char>, b: Seq<char>) -> Seq<char> {
    if b.len() == 0 {
        a
    } else if a.len() == 0 {
        b
    } else {
        a + sep + b
    }
}

/// The line break that separates the lines of a formatted address.
pub open spec fn newline() -> Seq<char> {
    seq!['\n']
}

/// `[s]` for a non-blank `s`, nothing for a blank one.
pub open spec fn line_if(s: Seq<char>) -> Seq<Seq<char>> {
    if s.len() > 0 {
        seq![s]
    } else {
        seq![]
    }
}

/// The name and street lines of an address, blank ones left out.
pub open spec fn street_lines(a: AddressView) -> Seq<Seq<char>> {
    line_if(collapse(a.recipient)) + line_if(collapse(a.street1)) + line_if(collapse(a.street2))
}

/// The US locality line `City, RG 12345`: the region canonicalized to its
/// code when it is in the state table, the postal code normalized when it
/// is one, blank parts and their separators left out.
pub open spec fn us_locality(a: AddressView) -> Seq<char> {
    let region = collapse(a.region);
    let postal = collapse(a.postal_code);
    attach(
        attach(collapse(a.city), ", "@, or_else(region_code(region), region)),
        space(),
        or_else(postal_code(postal), postal),
    )
}

/// The country line of a US-style block: the upper-cased country, only for
/// a non-blank country that is not the US.
pub open spec fn us_country_lines(a: AddressView) -> Seq<Seq<char>> {
    let country = collapse(a.country);
    if country.len() > 0 && !is_domestic(country) {
        seq![upper(country)]
    } else {
        seq![]
    }
}

/// The lines of the US-style block.
pub open spec fn us_lines(a: AddressView) -> Seq<Seq<char>> {
    street_lines(a) + line_if(us_locality(a)) + us_country_lines(a)
}

/// The US-style block.
pub open spec fn us_block(a: AddressView) -> Seq<char> {
    join(us_lines(a), newline())
}

/// The international locality: city, region and postal code as given
/// (whitespace collapsed), separated by single spaces, blank ones left out.
pub open spec fn intl_locality(a: AddressView) -> Seq<char> {
    attach(
        attach(collapse(a.city), space(), collapse(a.region)),
        space(),
        collapse(a.postal_code),
    )
}

/// `[upper(s)]` for a non-blank `s`, nothing for a blank one.
pub open spec fn capital_line(s: Seq<char>) -> Seq<Seq<char>> {
    if s.len() > 0 {
        seq![upper(s)]
    } else {
        seq![]
    }
}

/// The lines of the international block.
pub open spec fn intl_lines(a: AddressView) -> Seq<Seq<char>> {
    street_lines(a) + capital_line(intl_locality(a)) + capital_line(collapse(a.country))
}

/// The international block.
pub open spec fn intl_block(a: AddressView) -> Seq<char> {
    join(intl_lines(a), newline())
}

/// Whether an address is domestic: its country is blank or the US.
pub open spec fn is_domestic_address(a: AddressView) -> bool {
    let country = collapse(a.country);
    country.len() == 0 || is_domestic(country)
}

/// The block for an address: US style for a domestic one, international
/// otherwise.
pub open spec fn block(a: AddressView) -> Seq<char> {
    if is_domestic_address(a) {
        us_block(a)
    } else {
        intl_block(a)
    }
}

/// Whether `s` holds an ASCII digit.
pub open spec fn has_digit(s: Seq<char>) -> bool {
    exists|i: int| 0 <= i < s.len() && is_digit(#[trigger] s[i])
}

/// Whether the first word of `s` starts with an ASCII digit.
pub open spec fn leads_with_digit(s: Seq<char>) -> bool {
    words(s).len() > 0 && is_digit(words(s)[0][0])
}

/// What `parse_us_address` reads from the lines before the city: the first
/// is the recipient unless it starts with a digit; then the first street
/// line; all others joined by `", "` as the second street line.
pub open spec fn parse_lead(a: AddressView, lead: Seq<Seq<char>>) -> AddressView {
    let named = lead.len() > 0 && !leads_with_digit(lead[0]);
    let streets = if named {
        lead.drop_first()
    } else {
        lead
    };
    AddressView {
        recipient: if named {
            lead[0]
        } else {
            seq![]
        },
        street1: if streets.len() > 0 {
            streets[0]
        } else {
            seq![]
        },
        street2: if streets.len() > 0 {
            join(streets.drop_first(), ", "@)
        } else {
            seq![]
        },
        ..a
    }
}

/// What `parse_us_address` reads from the segments after a trailing US
/// country is taken off: the last segment is the locality (region words,
/// then a postal code if the last word holds a digit), the one before it
/// the city, the rest go to `parse_lead`.
pub open spec fn parse_rest(country: Seq<char>, rest: Seq<Seq<char>>) -> AddressView {
    let tokens = words(rest.last());
    let with_postal = tokens.len() > 0 && has_digit(tokens.last());
    let region_words = if with_postal {
        tokens.drop_last()
    } else {
        tokens
    };
    let front = rest.drop_last();
    let a = AddressView {
        postal_code: if with_postal {
            or_else(postal_code(tokens.last()), tokens.last())
        } else {
            seq![]
        },
        region: join(region_words, space()),
        city: if front.len() > 0 {
            front.last()
        } else {
            seq![]
        },
        country: country,
        ..AddressView::blank()
    };
    if front.len() > 0 {
        parse_lead(a, front.drop_last())
    } else {
        a
    }
}

/// The address `parse_us_address` reads from freeform text.
pub open spec fn parsed(input: Seq<char>) -> AddressView {
    let segs = segments(input);
    let with_country = segs.len() > 0 && is_domestic(segs.last());
    let rest = if with_country {
        segs.drop_last()
    } else {
        segs
    };
    let country = if with_country {
        segs.last()
    } else {
        seq![]
    };
    if rest.len() == 0 {
        AddressView { country: country, ..AddressView::blank() }
    } else {
        parse_rest(country, rest)
    }
}

// ---------------------------------------------------------------------------
// Lemmas
// ---------------------------------------------------------------------------

/// No upper-cased name before `i` is `u`: the search may start at `i`.
pub proof fn lemma_first_name_match_skip(u: Seq<char>, i: usize)
    requires
        i <= STATE_COUNT,
        forall|j: usize| j < i ==> upper(#[trigger] state_name(j)) != u,
    ensures
        first_name_match(u, 0) == first_name_match(u, i),
    decreases i,
{
    if i > 0 {
        let k = (i - 1) as usize;
        assert(upper(state_name(k)) != u);
        lemma_first_name_match_skip(u, k);
    }
}

// ---------------------------------------------------------------------------
// Executable field functions
// ---------------------------------------------------------------------------

/// Whether a country field names the United States.
fn domestic_chars(country: &[char]) -> (r: bool)
    ensures
        r == is_domestic(country@),
{
    let u = upper_chars(&collapse_chars(country));
    same_chars(&u, &chars_of("US")) || same_chars(&u, &chars_of("USA")) || same_chars(
        &u,
        &chars_of("U.S."),
    ) || same_chars(&u, &chars_of("U.S.A.")) || same_chars(&u, &chars_of("UNITED STATES"))
        || same_chars(&u, &chars_of("UNITED STATES OF AMERICA"))
}

/// A US postal code from the digits of `s`.
fn postal_chars(s: &[char]) -> (r: Option<Vec<char>>)
    ensures
        match r {
            Some(v) => postal_code(s@) == Some(v@),
            None => postal_code(s@) is None,
        },
{
    let d = digits_of(s);
    if d.len() == 5 {
        Some(d)
    } else if d.len() == 9 {
        let mut out: Vec<char> = Vec::new();
        let mut i: usize = 0;
        while i < 9
            invariant
                d@.len() == 9,
                i <= 9,
                out@ == if i <= 5 {
                    d@.take(i as int)
                } else {
                    d@.take(5) + seq!['-'] + d@.subrange(5, i as int)
                },
            decreases 9 - i,
        {
            if i == 5 {
                out.push('-');
            }
            out.push(d[i]);
            proof {
                if i < 5 {
                    assert(d@.take(i + 1) =~= d@.take(i as int).push(d@[i as int]));
                } else {
                    assert(d@.subrange(5, i + 1) =~= d@.subrange(5, i as int).push(d@[i as int]));
                    assert(out@ =~= d@.take(5) + seq!['-'] + d@.subrange(5, i + 1));
                }
            }
            i += 1;
        }
        assert(d@.subrange(5, 9) =~= d@.skip(5));
        Some(out)
    } else {
        None
    }
}

/// The canonical two-letter code of a US state, DC or territory.
#[verifier::loop_isolation(false)]
fn region_chars(s: &[char]) -> (r: Option<Vec<char>>)
    ensures
        match r {
            Some(v) => region_code(s@) == Some(v@),
            None => region_code(s@) is None,
        },
{
    let cleaned = collapse_chars(s);
    if cleaned.len() == 0 {
        return None;
    }
    let u = upper_chars(&cleaned);
    if cleaned.len() == 2 {
        let mut i: usize = 0;
        while i < STATE_COUNT
            invariant
                i <= STATE_COUNT,

                forall|j: usize| j < i ==> #[trigger] state_code(j) != u@,
            decreases STATE_COUNT - i,
        {
            let (_, a, b) = state_at(i);
            if u.len() == 2 && u[0] == a && u[1] == b {
                let v = vec![a, b];
                assert(u@ =~= seq![a, b]);
                assert(v@ =~= u@);
                assert(is_state_code(u@)) by {
                    assert(state_code(i) == u@);
                }
                return Some(v);
            }
            assert(state_code(i) != u@) by {
                if state_code(i) == u@ {
                    assert(u@[0] == a && u@[1] == b);
                }
            }
            i += 1;
        }
        None
    } else {
        let mut i: usize = 0;
        while i < STATE_COUNT
            invariant
                i <= STATE_COUNT,

                forall|j: usize| j < i ==> upper(#[trigger] state_name(j)) != u@,
            decreases STATE_COUNT - i,
        {
            let (name, a, b) = state_at(i);
            let n = upper_chars(&chars_of(name));
            if same_chars(&n, &u) {
                proof {
                    lemma_first_name_match_skip(u@, i);
                    assert(first_name_match(u@, i) == Some(i));
                }
                let v = vec![a, b];
                assert(v@ =~= seq![a, b]);
                return Some(v);
            }
            i += 1;
        }
        proof {
            lemma_first_name_match_skip(u@, STATE_COUNT);
        }
        None
    }
}

// ---------------------------------------------------------------------------
// Public field functions
// ---------------------------------------------------------------------------

/// Collapses runs of whitespace to single spaces and trims the ends.
///
/// Addresses pasted from PDFs and web forms routinely carry double spaces,
/// tabs, or trailing newlines; this is the one normalization nearly every
/// other function here depends on.
pub fn normalize_whitespace(input: &str) -> (r: String)
    ensures
        r@ == collapse(input@),
{
    string_of(&collapse_chars(&chars_of(input)))
}

/// Normalizes a US postal code to `NNNNN` or `NNNNN-NNNN`.
///
/// Non-digit characters (spaces, stray hyphens) are stripped before
/// counting, so `"12345 - 6789"` and `"123456789"` both normalize the same
/// way. Returns `None` if the digit count matches neither a 5-digit nor a
/// ZIP+4 code.
pub fn normalize_us_postal_code(input: &str) -> (r: Option<String>)
    ensures
        match r {
            Some(v) => postal_code(input@) == Some(v@),
            None => postal_code(input@) is None,
        },
{
    match postal_chars(&chars_of(input)) {
        Some(v) => Some(string_of(&v)),
        None => None,
    }
}

/// Reports whether a country field refers to the United States.
fn is_domestic_us(country: &str) -> (r: bool)
    ensures
        r == is_domestic(country@),
{
    domestic_chars(&chars_of(country))
}

/// Normalizes a US state, DC, or territory name or abbreviation to its
/// canonical two-letter code.
///
/// Accepts either form case-insensitively - `"illinois"`, `"Illinois"`,
/// and `"il"` all normalize to `"IL"`. Returns `None` if the input is not a
/// two-letter code or full name in the state table.
pub fn normalize_us_region(input: &str) -> (r: Option<String>)
    ensures
        match r {
            Some(v) => region_code(input@) == Some(v@),
            None => region_code(input@) is None,
        },
{
    match region_chars(&chars_of(input)) {
        Some(v) => Some(string_of(&v)),
        None => None,
    }
}

// ---------------------------------------------------------------------------
// Address-level functions
// ---------------------------------------------------------------------------

/// Checks an address for the problems that would keep it from being
/// deliverable, without trying to guess at fixes.
///
/// This only validates structure (which fields are present, whether the
/// postal code has a plausible shape, whether the region is a real US
/// state/DC/territory), not whether the address exists.
///
/// The region check only runs for addresses that look domestic (an empty
/// or US-flavored `country` field); addresses with a foreign `country`
/// skip it, since the state table has nothing to say about a Canadian
/// province or a UK county.
pub fn validate(address: &Address) -> (r: Vec<ValidationIssue>)
    ensures
        issue_views(r@) == issues(address@),
{
    let mut out: Vec<ValidationIssue> = Vec::new();
    let ghost a = address@;
    if collapse_chars(&chars_of(address.recipient.as_str())).len() == 0 {
        out.push(ValidationIssue::MissingRecipient);
    }
    if collapse_chars(&chars_of(address.street1.as_str())).len() == 0 {
        out.push(ValidationIssue::MissingStreet);
    }
    if collapse_chars(&chars_of(address.city.as_str())).len() == 0 {
        out.push(ValidationIssue::MissingCity);
    }
    assert(issue_views(out@) =~= blank_issue(a.recipient, IssueView::MissingRecipient)
        + blank_issue(a.street1, IssueView::MissingStreet) + blank_issue(a.city, IssueView::MissingCity));
    let ghost before_region = issue_views(out@);
    let region = collapse_chars(&chars_of(address.region.as_str()));
    let country = collapse_chars(&chars_of(address.country.as_str()));
    if region.len() == 0 {
        out.push(ValidationIssue::MissingRegion);
    } else if (country.len() == 0 || domestic_chars(&country)) && region_chars(&region).is_none() {
        out.push(ValidationIssue::InvalidRegion(string_of(&region)));
    }
    assert(issue_views(out@) =~= before_region + region_issues(a));
    let ghost before_postal = issue_views(out@);
    let postal = collapse_chars(&chars_of(address.postal_code.as_str()));
    if postal.len() > 0 && postal_chars(&postal).is_none() {
        out.push(ValidationIssue::InvalidPostalCode(string_of(&postal)));
    }
    assert(issue_views(out@) =~= before_postal + postal_issues(a));
    out
}

/// `a` and `b` with `sep` between them, or whichever is not empty.
fn attach_chars(a: Vec<char>, sep: &[char], b: Vec<char>) -> (r: Vec<char>)
    ensures
        r@ == attach(a@, sep@, b@),
{
    if b.len() == 0 {
        a
    } else if a.len() == 0 {
        b
    } else {
        let mut out = a;
        let mut s = vstd::slice::slice_to_vec(sep);
        let mut b = b;
        out.append(&mut s);
        out.append(&mut b);
        out
    }
}

/// The whitespace-collapsed characters of a field.
fn field(s: &String) -> (r: Vec<char>)
    ensures
        r@ == collapse(s@),
{
    collapse_chars(&chars_of(s.as_str()))
}

/// Pushes `line` when it is not empty.
fn push_nonblank(lines: &mut Vec<Vec<char>>, line: Vec<char>)
    ensures
        views(final(lines)@) == views(old(lines)@) + line_if(line@),
{
    if line.len() > 0 {
        lines.push(line);
        assert(views(lines@) =~= views(old(lines)@) + line_if(line@));
    } else {
        assert(views(lines@) =~= views(old(lines)@) + line_if(line@));
    }
}

/// The name and street lines of an address, blank ones left out.
fn street_lines_of(address: &Address) -> (r: Vec<Vec<char>>)
    ensures
        views(r@) == street_lines(address@),
{
    let mut lines: Vec<Vec<char>> = Vec::new();
    let ghost a = address@;
    push_nonblank(&mut lines, field(&address.recipient));
    push_nonblank(&mut lines, field(&address.street1));
    push_nonblank(&mut lines, field(&address.street2));
    assert(views(lines@) =~= street_lines(a));
    lines
}

/// The lines joined by line breaks.
fn join_lines(lines: &Vec<Vec<char>>) -> (r: String)
    ensures
        r@ == join(views(lines@), newline()),
{
    let sep = vec!['\n'];
    assert(sep@ =~= newline());
    string_of(&join_of(lines.as_slice(), sep.as_slice()))
}

/// Renders an address as the multi-line block a US envelope expects:
///
/// ```text
/// Jane Doe
/// 123 Main St
/// Apt 4B
/// Springfield, IL 62704
/// ```
///
/// Blank fields are skipped rather than left as empty lines, and the
/// country line is omitted for domestic addresses. A region that matches a
/// known US state, DC, or territory name is canonicalized to its two-letter
/// code; anything else is passed through unchanged. This never fails.
pub fn format_us_address(address: &Address) -> (r: String)
    ensures
        r@ == us_block(address@),
{
    let ghost a = address@;
    let mut lines = street_lines_of(address);
    let ghost streets = views(lines@);
    let city = field(&address.city);
    let region_raw = field(&address.region);
    let region = match region_chars(&region_raw) {
        Some(v) => v,
        None => region_raw,
    };
    let postal_raw = field(&address.postal_code);
    let postal = match postal_chars(&postal_raw) {
        Some(v) => v,
        None => postal_raw,
    };
    let comma = vec![',', ' '];
    assert(comma@ =~= ", "@) by {
        reveal_strlit(", ");
    }
    let city_region = attach_chars(city, comma.as_slice(), region);
    let locality = attach_chars(city_region, &[' '], postal);
    assert(locality@ == us_locality(a)) by {
        assert(seq![' '] =~= space());
    }
    push_nonblank(&mut lines, locality);
    let country = field(&address.country);
    if country.len() > 0 && !domestic_chars(&country) {
        lines.push(upper_chars(&country));
    }
    assert(views(lines@) =~= us_lines(a));
    join_lines(&lines)
}

/// Renders an address in a generic international layout: one line each for
/// the recipient and the street lines, then a locality line (city, region,
/// postal code) and a country line, both in capitals. Blank fields are
/// skipped. Per-country conventions are not modeled.
pub fn format_international_address(address: &Address) -> (r: String)
    ensures
        r@ == intl_block(address@),
{
    let ghost a = address@;
    let mut lines = street_lines_of(address);
    let locality = attach_chars(
        attach_chars(field(&address.city), &[' '], field(&address.region)),
        &[' '],
        field(&address.postal_code),
    );
    assert(locality@ == intl_locality(a)) by {
        assert(seq![' '] =~= space());
    }
    if locality.len() > 0 {
        lines.push(upper_chars(&locality));
    }
    let country = field(&address.country);
    if country.len() > 0 {
        lines.push(upper_chars(&country));
    }
    assert(views(lines@) =~= intl_lines(a));
    join_lines(&lines)
}

/// Renders an address in the US layout when its country is blank or the
/// US, and in the international layout otherwise.
pub fn format_address(address: &Address) -> (r: String)
    ensures
        r@ == block(address@),
{
    let country = field(&address.country);
    if country.len() == 0 || domestic_chars(&country) {
        format_us_address(address)
    } else {
        format_international_address(address)
    }
}

/// Whether `s` holds an ASCII digit.
fn has_digit_chars(s: &[char]) -> (r: bool)
    ensures
        r == has_digit(s@),
{
    let mut i: usize = 0;
    while i < s.len()
        invariant
            i <= s.len(),
            forall|k: int| 0 <= k < i ==> !is_digit(#[trigger] s@[k]),
        decreases s.len() - i,
    {
        if '0' <= s[i] && s[i] <= '9' {
            assert(is_digit(s@[i as int]));
            return true;
        }
        i += 1;
    }
    false
}

/// Reports whether a segment's first word starts with a digit, the signal
/// `parse_us_address` uses to tell a street line ("123 Main St") apart from
/// a recipient name at the front of the input.
fn starts_with_digit(segment: &[char]) -> (r: bool)
    ensures
        r == leads_with_digit(segment@),
{
    let ws = words_of(segment);
    if ws.len() == 0 {
        return false;
    }
    proof {
        crate::text::lemma_words_are_words(segment@);
        assert(ws@[0]@ == words(segment@)[0]);
    }
    let first = ws[0][0];
    '0' <= first && first <= '9'
}

/// Parses a freeform US address string into an `Address`.
///
/// Accepts either the multi-line block that `format_us_address` produces
/// or a single comma-separated line: input is split on both newlines and
/// commas. A trailing US country segment becomes the country; the last
/// remaining segment is read as "region [postal code]", the segment before
/// that as the city, and whatever is left at the front as recipient and
/// street lines: a leading segment that starts with a digit is a street
/// line rather than a recipient name.
///
/// This is a heuristic splitter, not an address-parsing engine: ambiguous
/// input gets assigned somewhere reasonable rather than rejected. Run the
/// result through `validate` to confirm the required fields came out
/// non-empty.
pub fn parse_us_address(input: &str) -> (r: Address)
    ensures
        r@ == parsed(input@),
{
    let mut segs = segments_of(&chars_of(input));
    let ghost all = views(segs@);
    let mut address = Address::default();
    if segs.len() == 0 {
        return address;
    }
    let with_country = domestic_chars(&segs[segs.len() - 1]);
    if with_country {
        let c = segs.pop().unwrap();
        address.country = string_of(&c);
        assert(views(segs@) =~= all.drop_last());
    }
    let ghost rest = views(segs@);
    if segs.len() == 0 {
        assert(address@ == parsed(input@));
        return address;
    }
    let ghost country = address.country@;
    let locality = segs.pop().unwrap();
    assert(views(segs@) =~= rest.drop_last());
    assert(locality@ == rest.last());
    let mut tokens = words_of(&locality);
    let ghost toks = views(tokens@);
    let ghost with_postal = toks.len() > 0 && has_digit(toks.last());
    if tokens.len() > 0 && has_digit_chars(&tokens[tokens.len() - 1]) {
        let raw = tokens.pop().unwrap();
        address.postal_code = match postal_chars(&raw) {
            Some(p) => string_of(&p),
            None => string_of(&raw),
        };
        assert(views(tokens@) =~= toks.drop_last());
        assert(raw@ == toks.last());
    }
    assert(address.postal_code@ == if with_postal {
        or_else(postal_code(toks.last()), toks.last())
    } else {
        Seq::<char>::empty()
    });
    assert(views(tokens@) == if with_postal { toks.drop_last() } else { toks });
    let sp = vec![' '];
    assert(sp@ =~= space());
    address.region = string_of(&join_of(tokens.as_slice(), sp.as_slice()));
    assert(address.region@ == join(if with_postal { toks.drop_last() } else { toks }, space()));
    let ghost front = views(segs@);
    if segs.len() > 0 {
        let city = segs.pop().unwrap();
        address.city = string_of(&city);
        assert(views(segs@) =~= front.drop_last());
        assert(city@ == front.last());
    }
    let ghost base = address@;
    assert(front.len() == 0 ==> address@ == parse_rest(country, rest));
    if segs.len() == 0 {
        return address;
    }
    let ghost lead = views(segs@);
    let mut next: usize = 1;
    if starts_with_digit(&segs[0]) {
        address.street1 = string_of(&segs[0]);
    } else {
        address.recipient = string_of(&segs[0]);
        if segs.len() > 1 {
            address.street1 = string_of(&segs[1]);
            next = 2;
        }
    }
    if next < segs.len() {
        let tail = vstd::slice::slice_subrange(segs.as_slice(), next, segs.len());
        let comma = vec![',', ' '];
        assert(comma@ =~= ", "@) by {
            reveal_strlit(", ");
        }
        address.street2 = string_of(&join_of(tail, comma.as_slice()));
        proof {
            let named = !leads_with_digit(lead[0]);
            let streets = if named { lead.drop_first() } else { lead };
            assert(views(tail@) =~= streets.drop_first());
        }
    }
    proof {
        let named = !leads_with_digit(lead[0]);
        let streets = if named { lead.drop_first() } else { lead };
        assert(streets.len() > 0 ==> streets.drop_first().len() == 0 ==> join(streets.drop_first(), ", "@) == Seq::<char>::empty());
        assert(address@ == parse_lead(base, lead));
    }
    address
}

} // verus!
