//! The US states, DC, and inhabited territories that the USPS gives a
//! two-letter code, each paired with its full name.
//!
//! Military "state" codes (AA, AE, AP) are left out on purpose: they have
//! no single place name, so they do not fit a name-or-code lookup.
use vstd::prelude::*;

use crate::text::{ascii_upper, is_ascii_text, single_spaced};

verus! {

broadcast use vstd::string::group_string_axioms;

/// How many entries the table has.
pub const STATE_COUNT: usize = 56;

/// Entry `i` of the table: the full name and the two-letter code.
pub open spec fn state(i: usize) -> (Seq<char>, Seq<char>) {
    match i {
        0 => ("Alabama"@, seq!['A', 'L']),
        1 => ("Alaska"@, seq!['A', 'K']),
        2 => ("Arizona"@, seq!['A', 'Z']),
        3 => ("Arkansas"@, seq!['A', 'R']),
        4 => ("California"@, seq!['C', 'A']),
        5 => ("Colorado"@, seq!['C', 'O']),
        6 => ("Connecticut"@, seq!['C', 'T']),
        7 => ("Delaware"@, seq!['D', 'E']),
        8 => ("District of Columbia"@, seq!['D', 'C']),
        9 => ("Florida"@, seq!['F', 'L']),
        10 => ("Georgia"@, seq!['G', 'A']),
        11 => ("Hawaii"@, seq!['H', 'I']),
        12 => ("Idaho"@, seq!['I', 'D']),
        13 => ("Illinois"@, seq!['I', 'L']),
        14 => ("Indiana"@, seq!['I', 'N']),
        15 => ("Iowa"@, seq!['I', 'A']),
        16 => ("Kansas"@, seq!['K', 'S']),
        17 => ("Kentucky"@, seq!['K', 'Y']),
        18 => ("Louisiana"@, seq!['L', 'A']),
        19 => ("Maine"@, seq!['M', 'E']),
        20 => ("Maryland"@, seq!['M', 'D']),
        21 => ("Massachusetts"@, seq!['M', 'A']),
        22 => ("Michigan"@, seq!['M', 'I']),
        23 => ("Minnesota"@, seq!['M', 'N']),
        24 => ("Mississippi"@, seq!['M', 'S']),
        25 => ("Missouri"@, seq!['M', 'O']),
        26 => ("Montana"@, seq!['M', 'T']),
        27 => ("Nebraska"@, seq!['N', 'E']),
        28 => ("Nevada"@, seq!['N', 'V']),
        29 => ("New Hampshire"@, seq!['N', 'H']),
        30 => ("New Jersey"@, seq!['N', 'J']),
        31 => ("New Mexico"@, seq!['N', 'M']),
        32 => ("New York"@, seq!['N', 'Y']),
        33 => ("North Carolina"@, seq!['N', 'C']),
        34 => ("North Dakota"@, seq!['N', 'D']),
        35 => ("Ohio"@, seq!['O', 'H']),
        36 => ("Oklahoma"@, seq!['O', 'K']),
        37 => ("Oregon"@, seq!['O', 'R']),
        38 => ("Pennsylvania"@, seq!['P', 'A']),
        39 => ("Rhode Island"@, seq!['R', 'I']),
        40 => ("South Carolina"@, seq!['S', 'C']),
        41 => ("South Dakota"@, seq!['S', 'D']),
        42 => ("Tennessee"@, seq!['T', 'N']),
        43 => ("Texas"@, seq!['T', 'X']),
        44 => ("Utah"@, seq!['U', 'T']),
        45 => ("Vermont"@, seq!['V', 'T']),
        46 => ("Virginia"@, seq!['V', 'A']),
        47 => ("Washington"@, seq!['W', 'A']),
        48 => ("West Virginia"@, seq!['W', 'V']),
        49 => ("Wisconsin"@, seq!['W', 'I']),
        50 => ("Wyoming"@, seq!['W', 'Y']),
        51 => ("American Samoa"@, seq!['A', 'S']),
        52 => ("Guam"@, seq!['G', 'U']),
        53 => ("Northern Mariana Islands"@, seq!['M', 'P']),
        54 => ("Puerto Rico"@, seq!['P', 'R']),
        55 => ("U.S. Virgin Islands"@, seq!['V', 'I']),
        _ => (seq![], seq![]),
    }
}

/// The full name of entry `i`.
pub open spec fn state_name(i: usize) -> Seq<char> {
    state(i).0
}

/// The two-letter code of entry `i`.
pub open spec fn state_code(i: usize) -> Seq<char> {
    state(i).1
}

/// Entry `i` of the table: the full name and the two letters of the code.
pub fn state_at(i: usize) -> (r: (&'static str, char, char))
    requires
        i < STATE_COUNT,
    ensures
        r.0@ == state_name(i),
        seq![r.1, r.2] == state_code(i),
{
    match i {
        0 => ("Alabama", 'A', 'L'),
        1 => ("Alaska", 'A', 'K'),
        2 => ("Arizona", 'A', 'Z'),
        3 => ("Arkansas", 'A', 'R'),
        4 => ("California", 'C', 'A'),
        5 => ("Colorado", 'C', 'O'),
        6 => ("Connecticut", 'C', 'T'),
        7 => ("Delaware", 'D', 'E'),
        8 => ("District of Columbia", 'D', 'C'),
        9 => ("Florida", 'F', 'L'),
        10 => ("Georgia", 'G', 'A'),
        11 => ("Hawaii", 'H', 'I'),
        12 => ("Idaho", 'I', 'D'),
        13 => ("Illinois", 'I', 'L'),
        14 => ("Indiana", 'I', 'N'),
        15 => ("Iowa", 'I', 'A'),
        16 => ("Kansas", 'K', 'S'),
        17 => ("Kentucky", 'K', 'Y'),
        18 => ("Louisiana", 'L', 'A'),
        19 => ("Maine", 'M', 'E'),
        20 => ("Maryland", 'M', 'D'),
        21 => ("Massachusetts", 'M', 'A'),
        22 => ("Michigan", 'M', 'I'),
        23 => ("Minnesota", 'M', 'N'),
        24 => ("Mississippi", 'M', 'S'),
        25 => ("Missouri", 'M', 'O'),
        26 => ("Montana", 'M', 'T'),
        27 => ("Nebraska", 'N', 'E'),
        28 => ("Nevada", 'N', 'V'),
        29 => ("New Hampshire", 'N', 'H'),
        30 => ("New Jersey", 'N', 'J'),
        31 => ("New Mexico", 'N', 'M'),
        32 => ("New York", 'N', 'Y'),
        33 => ("North Carolina", 'N', 'C'),
        34 => ("North Dakota", 'N', 'D'),
        35 => ("Ohio", 'O', 'H'),
        36 => ("Oklahoma", 'O', 'K'),
        37 => ("Oregon", 'O', 'R'),
        38 => ("Pennsylvania", 'P', 'A'),
        39 => ("Rhode Island", 'R', 'I'),
        40 => ("South Carolina", 'S', 'C'),
        41 => ("South Dakota", 'S', 'D'),
        42 => ("Tennessee", 'T', 'N'),
        43 => ("Texas", 'T', 'X'),
        44 => ("Utah", 'U', 'T'),
        45 => ("Vermont", 'V', 'T'),
        46 => ("Virginia", 'V', 'A'),
        47 => ("Washington", 'W', 'A'),
        48 => ("West Virginia", 'W', 'V'),
        49 => ("Wisconsin", 'W', 'I'),
        50 => ("Wyoming", 'W', 'Y'),
        51 => ("American Samoa", 'A', 'S'),
        52 => ("Guam", 'G', 'U'),
        53 => ("Northern Mariana Islands", 'M', 'P'),
        54 => ("Puerto Rico", 'P', 'R'),
        55 => ("U.S. Virgin Islands", 'V', 'I'),
        _ => ("", ' ', ' '),
    }
}

/// Every code in the table is two upper-case ASCII letters.
pub proof fn lemma_codes_are_upper_letters(i: usize)
    requires
        i < STATE_COUNT,
    ensures
        state_code(i).len() == 2,
        'A' <= state_code(i)[0] <= 'Z',
        'A' <= state_code(i)[1] <= 'Z',
{
}

/// The length and the first, second and last characters of a name,
/// upper-cased the ASCII way: no two names of the table share them.
pub open spec fn name_key(n: Seq<char>) -> (nat, char, char, char) {
    (n.len(), ascii_upper(n[0]), ascii_upper(n[1]), ascii_upper(n[n.len() - 1]))
}

/// The entry whose name has key `k`, or `STATE_COUNT` for none.
pub open spec fn entry_with_key(k: (nat, char, char, char)) -> usize {
    if k == (7nat, 'A', 'L', 'A') {
        0
    } else if k == (6nat, 'A', 'L', 'A') {
        1
    } else if k == (7nat, 'A', 'R', 'A') {
        2
    } else if k == (8nat, 'A', 'R', 'S') {
        3
    } else if k == (10nat, 'C', 'A', 'A') {
        4
    } else if k == (8nat, 'C', 'O', 'O') {
        5
    } else if k == (11nat, 'C', 'O', 'T') {
        6
    } else if k == (8nat, 'D', 'E', 'E') {
        7
    } else if k == (20nat, 'D', 'I', 'A') {
        8
    } else if k == (7nat, 'F', 'L', 'A') {
        9
    } else if k == (7nat, 'G', 'E', 'A') {
        10
    } else if k == (6nat, 'H', 'A', 'I') {
        11
    } else if k == (5nat, 'I', 'D', 'O') {
        12
    } else if k == (8nat, 'I', 'L', 'S') {
        13
    } else if k == (7nat, 'I', 'N', 'A') {
        14
    } else if k == (4nat, 'I', 'O', 'A') {
        15
    } else if k == (6nat, 'K', 'A', 'S') {
        16
    } else if k == (8nat, 'K', 'E', 'Y') {
        17
    } else if k == (9nat, 'L', 'O', 'A') {
        18
    } else if k == (5nat, 'M', 'A', 'E') {
        19
    } else if k == (8nat, 'M', 'A', 'D') {
        20
    } else if k == (13nat, 'M', 'A', 'S') {
        21
    } else if k == (8nat, 'M', 'I', 'N') {
        22
    } else if k == (9nat, 'M', 'I', 'A') {
        23
    } else if k == (11nat, 'M', 'I', 'I') {
        24
    } else if k == (8nat, 'M', 'I', 'I') {
        25
    } else if k == (7nat, 'M', 'O', 'A') {
        26
    } else if k == (8nat, 'N', 'E', 'A') {
        27
    } else if k == (6nat, 'N', 'E', 'A') {
        28
    } else if k == (13nat, 'N', 'E', 'E') {
        29
    } else if k == (10nat, 'N', 'E', 'Y') {
        30
    } else if k == (10nat, 'N', 'E', 'O') {
        31
    } else if k == (8nat, 'N', 'E', 'K') {
        32
    } else if k == (14nat, 'N', 'O', 'A') {
        33
    } else if k == (12nat, 'N', 'O', 'A') {
        34
    } else if k == (4nat, 'O', 'H', 'O') {
        35
    } else if k == (8nat, 'O', 'K', 'A') {
        36
    } else if k == (6nat, 'O', 'R', 'N') {
        37
    } else if k == (12nat, 'P', 'E', 'A') {
        38
    } else if k == (12nat, 'R', 'H', 'D') {
        39
    } else if k == (14nat, 'S', 'O', 'A') {
        40
    } else if k == (12nat, 'S', 'O', 'A') {
        41
    } else if k == (9nat, 'T', 'E', 'E') {
        42
    } else if k == (5nat, 'T', 'E', 'S') {
        43
    } else if k == (4nat, 'U', 'T', 'H') {
        44
    } else if k == (7nat, 'V', 'E', 'T') {
        45
    } else if k == (8nat, 'V', 'I', 'A') {
        46
    } else if k == (10nat, 'W', 'A', 'N') {
        47
    } else if k == (13nat, 'W', 'E', 'A') {
        48
    } else if k == (9nat, 'W', 'I', 'N') {
        49
    } else if k == (7nat, 'W', 'Y', 'G') {
        50
    } else if k == (14nat, 'A', 'M', 'A') {
        51
    } else if k == (4nat, 'G', 'U', 'M') {
        52
    } else if k == (24nat, 'N', 'O', 'S') {
        53
    } else if k == (11nat, 'P', 'U', 'O') {
        54
    } else if k == (19nat, 'U', '.', 'S') {
        55
    } else {
        STATE_COUNT
    }
}

/// Each name of the table is plain ASCII with single spaces between its
/// words, longer than a code, and found again from its key.
pub proof fn lemma_name_facts(i: usize)
    requires
        i < STATE_COUNT,
    ensures
        is_ascii_text(state_name(i)),
        single_spaced(state_name(i)),
        state_name(i).len() > 2,
        entry_with_key(name_key(state_name(i))) == i,
{
    match i {
        0 => {
            reveal_strlit("Alabama");
        },
        1 => {
            reveal_strlit("Alaska");
        },
        2 => {
            reveal_strlit("Arizona");
        },
        3 => {
            reveal_strlit("Arkansas");
        },
        4 => {
            reveal_strlit("California");
        },
        5 => {
            reveal_strlit("Colorado");
        },
        6 => {
            reveal_strlit("Connecticut");
        },
        7 => {
            reveal_strlit("Delaware");
        },
        8 => {
            reveal_strlit("District of Columbia");
        },
        9 => {
            reveal_strlit("Florida");
        },
        10 => {
            reveal_strlit("Georgia");
        },
        11 => {
            reveal_strlit("Hawaii");
        },
        12 => {
            reveal_strlit("Idaho");
        },
        13 => {
            reveal_strlit("Illinois");
        },
        14 => {
            reveal_strlit("Indiana");
        },
        15 => {
            reveal_strlit("Iowa");
        },
        16 => {
            reveal_strlit("Kansas");
        },
        17 => {
            reveal_strlit("Kentucky");
        },
        18 => {
            reveal_strlit("Louisiana");
        },
        19 => {
            reveal_strlit("Maine");
        },
        20 => {
            reveal_strlit("Maryland");
        },
        21 => {
            reveal_strlit("Massachusetts");
        },
        22 => {
            reveal_strlit("Michigan");
        },
        23 => {
            reveal_strlit("Minnesota");
        },
        24 => {
            reveal_strlit("Mississippi");
        },
        25 => {
            reveal_strlit("Missouri");
        },
        26 => {
            reveal_strlit("Montana");
        },
        27 => {
            reveal_strlit("Nebraska");
        },
        28 => {
            reveal_strlit("Nevada");
        },
        29 => {
            reveal_strlit("New Hampshire");
        },
        30 => {
            reveal_strlit("New Jersey");
        },
        31 => {
            reveal_strlit("New Mexico");
        },
        32 => {
            reveal_strlit("New York");
        },
        33 => {
            reveal_strlit("North Carolina");
        },
        34 => {
            reveal_strlit("North Dakota");
        },
        35 => {
            reveal_strlit("Ohio");
        },
        36 => {
            reveal_strlit("Oklahoma");
        },
        37 => {
            reveal_strlit("Oregon");
        },
        38 => {
            reveal_strlit("Pennsylvania");
        },
        39 => {
            reveal_strlit("Rhode Island");
        },
        40 => {
            reveal_strlit("South Carolina");
        },
        41 => {
            reveal_strlit("South Dakota");
        },
        42 => {
            reveal_strlit("Tennessee");
        },
        43 => {
            reveal_strlit("Texas");
        },
        44 => {
            reveal_strlit("Utah");
        },
        45 => {
            reveal_strlit("Vermont");
        },
        46 => {
            reveal_strlit("Virginia");
        },
        47 => {
            reveal_strlit("Washington");
        },
        48 => {
            reveal_strlit("West Virginia");
        },
        49 => {
            reveal_strlit("Wisconsin");
        },
        50 => {
            reveal_strlit("Wyoming");
        },
        51 => {
            reveal_strlit("American Samoa");
        },
        52 => {
            reveal_strlit("Guam");
        },
        53 => {
            reveal_strlit("Northern Mariana Islands");
        },
        54 => {
            reveal_strlit("Puerto Rico");
        },
        55 => {
            reveal_strlit("U.S. Virgin Islands");
        },
        _ => {},
    }
}

} // verus!
