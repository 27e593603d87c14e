//! Character-level building blocks: whitespace, word splitting, joining,
//! separator splitting and upper-casing, each with the spec it meets.
use vstd::prelude::*;

verus! {

broadcast use vstd::string::group_string_axioms;

// ---------------------------------------------------------------------------
// Specifications
// ---------------------------------------------------------------------------

/// Unicode `White_Space`: the characters `char::is_whitespace` accepts and
/// `str::split_whitespace` splits on.
pub open spec fn is_space(c: char) -> bool {
    ||| ('\u{9}' <= c && c <= '\u{d}')
    ||| c == ' '
    ||| c == '\u{85}'
    ||| c == '\u{a0}'
    ||| c == '\u{1680}'
    ||| ('\u{2000}' <= c && c <= '\u{200a}')
    ||| c == '\u{2028}'
    ||| c == '\u{2029}'
    ||| c == '\u{202f}'
    ||| c == '\u{205f}'
    ||| c == '\u{3000}'
}

/// An ASCII decimal digit (`char::is_ascii_digit`).
pub open spec fn is_digit(c: char) -> bool {
    '0' <= c && c <= '9'
}

/// The whitespace-separated words of `s`, in order: the maximal runs of
/// non-whitespace characters. A non-whitespace character either extends
/// the word that the previous character belongs to, or, after whitespace
/// or at the start, opens a new word.
pub open spec fn words(s: Seq<char>) -> Seq<Seq<char>>
    decreases s.len(),
{
    if s.len() == 0 {
        seq![]
    } else {
        let prev = words(s.drop_last());
        let c = s.last();
        if is_space(c) {
            prev
        } else if s.len() >= 2 && !is_space(s[s.len() - 2]) {
            prev.drop_last().push(prev.last().push(c))
        } else {
            prev.push(seq![c])
        }
    }
}

/// The pieces of `ws` with `sep` between each two neighbours.
pub open spec fn join(ws: Seq<Seq<char>>, sep: Seq<char>) -> Seq<char>
    decreases ws.len(),
{
    if ws.len() == 0 {
        seq![]
    } else if ws.len() == 1 {
        ws[0]
    } else {
        join(ws.drop_last(), sep) + sep + ws.last()
    }
}

/// A single space, the separator `normalize_whitespace` puts between words.
pub open spec fn space() -> Seq<char> {
    seq![' ']
}

/// Runs of whitespace collapsed to single spaces, ends trimmed: the words of
/// `s` joined by one space.
pub open spec fn collapse(s: Seq<char>) -> Seq<char> {
    join(words(s), space())
}

/// Whether `s` holds no break character.
pub open spec fn unbroken(s: Seq<char>) -> bool {
    forall|i: int| 0 <= i < s.len() ==> !is_break(#[trigger] s[i])
}

/// Whether every character of `s` is whitespace (an empty `s` too).
pub open spec fn all_space(s: Seq<char>) -> bool {
    forall|k: int| 0 <= k < s.len() ==> is_space(#[trigger] s[k])
}

/// Whether every character of `s` is ASCII.
pub open spec fn is_ascii_text(s: Seq<char>) -> bool {
    forall|k: int| 0 <= k < s.len() ==> #[trigger] s[k] <= '\u{7f}'
}

/// Whether the only whitespace in `s` is single spaces between
/// non-whitespace characters: what `collapse` produces.
pub open spec fn single_spaced(s: Seq<char>) -> bool {
    forall|k: int|
        0 <= k < s.len() && is_space(#[trigger] s[k]) ==> s[k] == ' ' && 0 < k < s.len() - 1
            && !is_space(s[k - 1]) && !is_space(s[k + 1])
}

/// The character sequences held by a list of character vectors.
pub open spec fn views(v: Seq<Vec<char>>) -> Seq<Seq<char>> {
    v.map_values(|x: Vec<char>| x@)
}

/// A word in the sense of `words`: non-empty, with no whitespace in it.
pub open spec fn is_word(w: Seq<char>) -> bool {
    w.len() > 0 && forall|i: int| 0 <= i < w.len() ==> !is_space(#[trigger] w[i])
}


/// A line break or a comma: the characters a freeform address is split on.
pub open spec fn is_break(c: char) -> bool {
    c == '\n' || c == ','
}

/// The pieces of `s` between break characters (`str::split` with
/// `is_break` as the pattern): one more piece than there are breaks, empty
/// pieces included.
pub open spec fn pieces(s: Seq<char>) -> Seq<Seq<char>>
    decreases s.len(),
{
    if s.len() == 0 {
        seq![seq![]]
    } else {
        let prev = pieces(s.drop_last());
        let c = s.last();
        if is_break(c) {
            prev.push(seq![])
        } else {
            prev.drop_last().push(prev.last().push(c))
        }
    }
}

/// The pieces of `ws` that are not empty, in order.
pub open spec fn nonblank(ws: Seq<Seq<char>>) -> Seq<Seq<char>>
    decreases ws.len(),
{
    if ws.len() == 0 {
        seq![]
    } else if ws.last().len() == 0 {
        nonblank(ws.drop_last())
    } else {
        nonblank(ws.drop_last()).push(ws.last())
    }
}

/// Each piece with its whitespace collapsed.
pub open spec fn collapse_each(ws: Seq<Seq<char>>) -> Seq<Seq<char>> {
    ws.map_values(|w: Seq<char>| collapse(w))
}

/// The non-blank, whitespace-collapsed pieces of `s` between line breaks
/// and commas.
pub open spec fn segments(s: Seq<char>) -> Seq<Seq<char>> {
    nonblank(collapse_each(pieces(s)))
}

/// ASCII upper-casing of one character (`char::to_ascii_uppercase`).
pub open spec fn ascii_upper(c: char) -> char {
    if 'a' <= c && c <= 'z' {
        ((c as u32) - 32) as char
    } else {
        c
    }
}

/// ASCII lower-casing of one character (`char::to_ascii_lowercase`).
pub open spec fn ascii_lower(c: char) -> char {
    if 'A' <= c && c <= 'Z' {
        ((c as u32) + 32) as char
    } else {
        c
    }
}

/// Each character of `s` mapped by `f`.
pub open spec fn map_chars(s: Seq<char>, f: spec_fn(char) -> char) -> Seq<char> {
    s.map_values(f)
}

/// What `char::to_uppercase` yields for `c`, by the Unicode case tables.
pub uninterp spec fn unicode_uppercase(c: char) -> Seq<char>;

/// The upper-case form of one character: the ASCII mapping for ASCII
/// characters (where the Unicode mapping and `char::to_ascii_uppercase`
/// agree), the Unicode mapping for all others. `str::to_uppercase` maps
/// its ASCII characters the same way.
pub open spec fn char_upper(c: char) -> Seq<char> {
    if c <= '\u{7f}' {
        seq![ascii_upper(c)]
    } else {
        unicode_uppercase(c)
    }
}

/// The upper-case form of a string (`str::to_uppercase`): each character
/// replaced by its upper-case form.
pub open spec fn upper(s: Seq<char>) -> Seq<char>
    decreases s.len(),
{
    if s.len() == 0 {
        seq![]
    } else {
        upper(s.drop_last()) + char_upper(s.last())
    }
}

/// The ASCII digits of `s`, in order.
pub open spec fn digits(s: Seq<char>) -> Seq<char>
    decreases s.len(),
{
    if s.len() == 0 {
        seq![]
    } else if is_digit(s.last()) {
        digits(s.drop_last()).push(s.last())
    } else {
        digits(s.drop_last())
    }
}

// ---------------------------------------------------------------------------
// Lemmas
// ---------------------------------------------------------------------------

/// Every piece that `words` yields is a word.
pub proof fn lemma_words_are_words(s: Seq<char>)
    ensures
        forall|i: int| 0 <= i < words(s).len() ==> is_word(#[trigger] words(s)[i]),
    decreases s.len(),
{
    if s.len() > 0 {
        lemma_words_are_words(s.drop_last());
        let prev = words(s.drop_last());
        let c = s.last();
        if !is_space(c) && s.len() >= 2 && !is_space(s[s.len() - 2]) {
            lemma_words_nonempty_when_last_nonspace(s.drop_last());
            let w = prev.last().push(c);
            assert(is_word(prev.last()));
            assert forall|k: int| 0 <= k < w.len() implies !is_space(#[trigger] w[k]) by {
                if k < w.len() - 1 {
                    assert(w[k] == prev.last()[k]);
                }
            }
            assert forall|i: int| 0 <= i < words(s).len() implies is_word(#[trigger] words(s)[i]) by {
                if i < words(s).len() - 1 {
                    assert(words(s)[i] == prev[i]);
                }
            }
        } else if !is_space(c) {
            assert forall|i: int| 0 <= i < words(s).len() implies is_word(#[trigger] words(s)[i]) by {
                if i < words(s).len() - 1 {
                    assert(words(s)[i] == prev[i]);
                } else {
                    assert(words(s)[i] == seq![c]);
                }
            }
        }
    }
}

/// A string whose last character is not whitespace has at least one word.
pub proof fn lemma_words_nonempty_when_last_nonspace(s: Seq<char>)
    requires
        s.len() > 0,
        !is_space(s.last()),
    ensures
        words(s).len() > 0,
    decreases s.len(),
{
    if s.len() >= 2 && !is_space(s[s.len() - 2]) {
        lemma_words_nonempty_when_last_nonspace(s.drop_last());
    }
}

/// Joining one more piece.
pub proof fn lemma_join_push(ws: Seq<Seq<char>>, sep: Seq<char>, w: Seq<char>)
    ensures
        join(ws.push(w), sep) == if ws.len() == 0 { w } else { join(ws, sep) + sep + w },
{
    assert(ws.push(w).drop_last() =~= ws);
    if ws.len() == 0 {
        assert(ws.push(w)[0] == w);
    }
}

/// Extending the last piece by one character extends the join by it.
pub proof fn lemma_join_extend_last(ws: Seq<Seq<char>>, sep: Seq<char>, c: char)
    requires
        ws.len() > 0,
    ensures
        join(ws.drop_last().push(ws.last().push(c)), sep) == join(ws, sep).push(c),
{
    let init = ws.drop_last();
    lemma_join_push(init, sep, ws.last().push(c));
    lemma_join_push(init, sep, ws.last());
    assert(init.push(ws.last()) =~= ws);
    if init.len() == 0 {
    } else {
        assert(join(init, sep) + sep + ws.last().push(c) =~= (join(init, sep) + sep + ws.last()).push(c));
    }
}

/// The join of non-empty pieces is empty exactly when there are none.
pub proof fn lemma_join_empty(ws: Seq<Seq<char>>, sep: Seq<char>)
    requires
        forall|i: int| 0 <= i < ws.len() ==> (#[trigger] ws[i]).len() > 0,
    ensures
        (join(ws, sep).len() == 0) == (ws.len() == 0),
    decreases ws.len(),
{
    if ws.len() > 1 {
        assert(ws.last() == ws[ws.len() - 1]);
    } else if ws.len() == 1 {
        assert(ws[0].len() > 0);
    }
}

/// `nonblank` grows by one piece.
pub proof fn lemma_nonblank_push(ws: Seq<Seq<char>>, w: Seq<char>)
    ensures
        nonblank(ws.push(w)) == if w.len() == 0 { nonblank(ws) } else { nonblank(ws).push(w) },
{
    assert(ws.push(w).drop_last() =~= ws);
}

/// `collapse_each` grows by one piece.
pub proof fn lemma_collapse_each_push(ws: Seq<Seq<char>>, w: Seq<char>)
    ensures
        collapse_each(ws.push(w)) == collapse_each(ws).push(collapse(w)),
{
    assert(collapse_each(ws.push(w)) =~= collapse_each(ws).push(collapse(w)));
}

/// How `collapse` grows by one character.
pub proof fn lemma_collapse_push(p: Seq<char>, c: char)
    ensures
        collapse(p.push(c)) == if is_space(c) {
            collapse(p)
        } else if p.len() > 0 && !is_space(p.last()) {
            collapse(p).push(c)
        } else if collapse(p).len() > 0 {
            collapse(p) + space() + seq![c]
        } else {
            seq![c]
        },
{
    let s = p.push(c);
    assert(s.drop_last() =~= p);
    let prev = words(p);
    if is_space(c) {
    } else if p.len() > 0 && !is_space(p.last()) {
        assert(s[s.len() - 2] == p.last());
        lemma_words_nonempty_when_last_nonspace(p);
        lemma_join_extend_last(prev, space(), c);
    } else {
        lemma_words_are_words(p);
        lemma_join_empty(prev, space());
        lemma_join_push(prev, space(), seq![c]);
    }
}

/// Whitespace between two strings splits their words apart.
pub proof fn lemma_words_concat(a: Seq<char>, sp: char, b: Seq<char>)
    requires
        is_space(sp),
    ensures
        words(a.push(sp) + b) == words(a) + words(b),
    decreases b.len(),
{
    let ap = a.push(sp);
    assert(ap.drop_last() =~= a);
    if b.len() == 0 {
        assert(ap + b =~= ap);
        assert(words(a) + words(b) =~= words(a));
    } else {
        let b0 = b.drop_last();
        let c = b.last();
        lemma_words_concat(a, sp, b0);
        let s = ap + b;
        assert(s.drop_last() =~= ap + b0);
        assert(s.last() == c);
        assert(s[s.len() - 2] == if b.len() >= 2 { b[b.len() - 2] } else { sp });
        if is_space(c) {
            assert(words(a) + words(b) =~= words(a) + words(b0));
        } else if b.len() >= 2 && !is_space(b[b.len() - 2]) {
            assert(b0.last() == b[b.len() - 2]);
            lemma_words_nonempty_when_last_nonspace(b0);
            assert((words(a) + words(b0)).drop_last().push((words(a) + words(b0)).last().push(c))
                =~= words(a) + words(b0).drop_last().push(words(b0).last().push(c)));
        } else {
            assert((words(a) + words(b0)).push(seq![c]) =~= words(a) + words(b0).push(seq![c]));
        }
    }
}

/// A word's only word is itself.
pub proof fn lemma_words_of_word(w: Seq<char>)
    requires
        is_word(w),
    ensures
        words(w) == seq![w],
    decreases w.len(),
{
    let p = w.drop_last();
    if w.len() == 1 {
        assert(p =~= Seq::<char>::empty());
        assert(!is_space(w[0]));
        assert(words(p) =~= Seq::<Seq<char>>::empty());
        assert(seq![w.last()] =~= w);
        assert(words(w) =~= seq![seq![w.last()]]);
    } else {
        assert(is_word(p)) by {
            assert forall|i: int| 0 <= i < p.len() implies !is_space(#[trigger] p[i]) by {
                assert(p[i] == w[i]);
            }
        }
        lemma_words_of_word(p);
        assert(!is_space(w[w.len() - 2]));
        assert(!is_space(w.last()));
        assert(p.push(w.last()) =~= w);
        assert(words(w) == words(p).drop_last().push(words(p).last().push(w.last())));
        assert(seq![p].drop_last().push(seq![p].last().push(w.last())) =~= seq![w]);
    }
}

/// Joining two non-empty lists of pieces.
pub proof fn lemma_join_concat(x: Seq<Seq<char>>, y: Seq<Seq<char>>, sep: Seq<char>)
    requires
        x.len() > 0,
        y.len() > 0,
    ensures
        join(x + y, sep) == join(x, sep) + sep + join(y, sep),
    decreases y.len(),
{
    let y0 = y.drop_last();
    assert((x + y).drop_last() =~= x + y0);
    assert((x + y).last() == y.last());
    if y.len() == 1 {
        assert(x + y0 =~= x);
        assert(join(y, sep) == y[0]);
    } else {
        lemma_join_concat(x, y0, sep);
        assert(join(x, sep) + sep + join(y0, sep) + sep + y.last() =~= join(x, sep) + sep + (
        join(y0, sep) + sep + y.last()));
    }
}

/// Words joined by single spaces split back into the same words.
pub proof fn lemma_words_join(ws: Seq<Seq<char>>)
    requires
        forall|i: int| 0 <= i < ws.len() ==> is_word(#[trigger] ws[i]),
    ensures
        words(join(ws, space())) == ws,
    decreases ws.len(),
{
    if ws.len() == 0 {
    } else if ws.len() == 1 {
        assert(is_word(ws[0]));
        lemma_words_of_word(ws[0]);
        assert(seq![ws[0]] =~= ws);
    } else {
        let init = ws.drop_last();
        assert forall|i: int| 0 <= i < init.len() implies is_word(#[trigger] init[i]) by {
            assert(init[i] == ws[i]);
        }
        lemma_words_join(init);
        assert(is_word(ws.last())) by {
            assert(ws.last() == ws[ws.len() - 1]);
        }
        lemma_words_of_word(ws.last());
        assert(join(init, space()) + space() + ws.last() =~= join(init, space()).push(' ')
            + ws.last());
        lemma_words_concat(join(init, space()), ' ', ws.last());
        assert(init + seq![ws.last()] =~= ws);
    }
}

/// Collapsing whitespace twice is collapsing it once.
pub proof fn lemma_collapse_idempotent(s: Seq<char>)
    ensures
        collapse(collapse(s)) == collapse(s),
{
    lemma_words_are_words(s);
    lemma_words_join(words(s));
}

/// A string with no break character is a single piece.
pub proof fn lemma_pieces_unbroken(x: Seq<char>)
    requires
        forall|i: int| 0 <= i < x.len() ==> !is_break(#[trigger] x[i]),
    ensures
        pieces(x) == seq![x],
    decreases x.len(),
{
    if x.len() == 0 {
        assert(x =~= Seq::<char>::empty());
    } else {
        let p = x.drop_last();
        assert forall|i: int| 0 <= i < p.len() implies !is_break(#[trigger] p[i]) by {
            assert(p[i] == x[i]);
        }
        lemma_pieces_unbroken(p);
        assert(!is_break(x[x.len() - 1]));
        assert(p.push(x.last()) =~= x);
        assert(pieces(x) == pieces(p).drop_last().push(pieces(p).last().push(x.last())));
        assert(seq![p].drop_last().push(seq![p].last().push(x.last())) =~= seq![x]);
    }
}

/// A break character between two strings splits their pieces apart.
pub proof fn lemma_pieces_concat(a: Seq<char>, brk: char, b: Seq<char>)
    requires
        is_break(brk),
    ensures
        pieces(a.push(brk) + b) == pieces(a) + pieces(b),
    decreases b.len(),
{
    let ap = a.push(brk);
    assert(ap.drop_last() =~= a);
    if b.len() == 0 {
        assert(ap + b =~= ap);
        assert(pieces(a).push(seq![]) =~= pieces(a) + pieces(b));
    } else {
        let b0 = b.drop_last();
        let c = b.last();
        lemma_pieces_concat(a, brk, b0);
        let s = ap + b;
        assert(s.drop_last() =~= ap + b0);
        assert(s.last() == c);
        let pb = pieces(b0);
        assert(pb.len() > 0);
        if is_break(c) {
            assert((pieces(a) + pb).push(seq![]) =~= pieces(a) + pb.push(seq![]));
        } else {
            assert((pieces(a) + pb).drop_last().push((pieces(a) + pb).last().push(c))
                =~= pieces(a) + pb.drop_last().push(pb.last().push(c)));
        }
    }
}

/// Upper-casing goes character by character.
pub proof fn lemma_upper_concat(a: Seq<char>, b: Seq<char>)
    ensures
        upper(a + b) == upper(a) + upper(b),
    decreases b.len(),
{
    if b.len() == 0 {
        assert(a + b =~= a);
        assert(upper(a) + upper(b) =~= upper(a));
    } else {
        lemma_upper_concat(a, b.drop_last());
        assert((a + b).drop_last() =~= a + b.drop_last());
        assert((a + b).last() == b.last());
        assert(upper(a) + upper(b.drop_last()) + char_upper(b.last()) =~= upper(a) + (upper(
            b.drop_last(),
        ) + char_upper(b.last())));
    }
}

/// A digit survives upper-casing.
pub proof fn lemma_upper_keeps_digit(s: Seq<char>, i: int)
    requires
        0 <= i < s.len(),
        is_digit(s[i]),
    ensures
        exists|k: int| 0 <= k < upper(s).len() && is_digit(#[trigger] upper(s)[k]),
{
    let pre = s.take(i);
    let post = s.skip(i + 1);
    assert(s =~= pre + seq![s[i]] + post);
    lemma_upper_concat(pre + seq![s[i]], post);
    lemma_upper_concat(pre, seq![s[i]]);
    assert(seq![s[i]].drop_last() =~= Seq::<char>::empty());
    assert(ascii_upper(s[i]) == s[i]);
    assert(char_upper(s[i]) =~= seq![s[i]]);
    assert(upper(seq![s[i]]) == upper(Seq::<char>::empty()) + char_upper(s[i]));
    assert(upper(seq![s[i]]) =~= seq![s[i]]);
    let k = upper(pre).len() as int;
    assert(upper(s)[k] == s[i]);
}

/// Unbroken lines joined by line breaks split back into the same lines.
pub proof fn lemma_pieces_join_lines(ls: Seq<Seq<char>>)
    requires
        ls.len() > 0,
        forall|i: int| 0 <= i < ls.len() ==> unbroken(#[trigger] ls[i]),
    ensures
        pieces(join(ls, seq!['\n'])) == ls,
    decreases ls.len(),
{
    if ls.len() == 1 {
        assert(unbroken(ls[0]));
        lemma_pieces_unbroken(ls[0]);
        assert(seq![ls[0]] =~= ls);
    } else {
        let init = ls.drop_last();
        assert forall|i: int| 0 <= i < init.len() implies unbroken(#[trigger] init[i]) by {
            assert(init[i] == ls[i]);
        }
        lemma_pieces_join_lines(init);
        assert(unbroken(ls[ls.len() - 1]));
        lemma_pieces_unbroken(ls.last());
        assert(join(init, seq!['\n']) + seq!['\n'] + ls.last() =~= join(init, seq!['\n']).push('\n')
            + ls.last());
        lemma_pieces_concat(join(init, seq!['\n']), '\n', ls.last());
        assert(init + seq![ls.last()] =~= ls);
    }
}

/// Pieces that are all non-empty are all kept.
pub proof fn lemma_nonblank_all(ws: Seq<Seq<char>>)
    requires
        forall|i: int| 0 <= i < ws.len() ==> (#[trigger] ws[i]).len() > 0,
    ensures
        nonblank(ws) == ws,
    decreases ws.len(),
{
    if ws.len() > 0 {
        let init = ws.drop_last();
        assert forall|i: int| 0 <= i < init.len() implies (#[trigger] init[i]).len() > 0 by {
            assert(init[i] == ws[i]);
        }
        lemma_nonblank_all(init);
        assert(ws.last().len() > 0) by {
            assert(ws.last() == ws[ws.len() - 1]);
        }
        assert(init.push(ws.last()) =~= ws);
    }
}

/// A character mapping that keeps whitespace whitespace and everything
/// else not, maps the words of a string one by one.
pub proof fn lemma_words_map(s: Seq<char>, f: spec_fn(char) -> char)
    requires
        forall|c: char| #[trigger] is_space(f(c)) == is_space(c),
    ensures
        words(map_chars(s, f)) == words(s).map_values(|w: Seq<char>| map_chars(w, f)),
    decreases s.len(),
{
    let t = map_chars(s, f);
    if s.len() == 0 {
        assert(words(s).map_values(|w: Seq<char>| map_chars(w, f)) =~= Seq::<Seq<char>>::empty());
    } else {
        let p = s.drop_last();
        let c = s.last();
        lemma_words_map(p, f);
        assert(t.drop_last() =~= map_chars(p, f));
        assert(t.last() == f(c));
        assert(is_space(f(c)) == is_space(c));
        let prev = words(p);
        let g = |w: Seq<char>| map_chars(w, f);
        if s.len() >= 2 {
            assert(t[t.len() - 2] == f(s[s.len() - 2]));
            assert(is_space(f(s[s.len() - 2])) == is_space(s[s.len() - 2]));
        }
        if is_space(c) {
        } else if s.len() >= 2 && !is_space(s[s.len() - 2]) {
            assert(p.last() == s[s.len() - 2]);
            lemma_words_nonempty_when_last_nonspace(p);
            assert(map_chars(prev.last().push(c), f) =~= map_chars(prev.last(), f).push(f(c)));
            assert(prev.map_values(g).last() == map_chars(prev.last(), f));
            assert(prev.drop_last().push(prev.last().push(c)).map_values(g) =~= prev.map_values(
                g,
            ).drop_last().push(prev.map_values(g).last().push(f(c))));
        } else {
            assert(map_chars(seq![c], f) =~= seq![f(c)]);
            assert(prev.push(seq![c]).map_values(g) =~= prev.map_values(g).push(seq![f(c)]));
        }
    }
}

/// A character mapping that keeps the space a space commutes with joining
/// by spaces.
pub proof fn lemma_join_map(ws: Seq<Seq<char>>, f: spec_fn(char) -> char)
    requires
        f(' ') == ' ',
    ensures
        join(ws.map_values(|w: Seq<char>| map_chars(w, f)), space()) == map_chars(
            join(ws, space()),
            f,
        ),
    decreases ws.len(),
{
    let g = |w: Seq<char>| map_chars(w, f);
    let m = ws.map_values(g);
    if ws.len() == 0 {
        assert(map_chars(join(ws, space()), f) =~= Seq::<char>::empty());
    } else if ws.len() == 1 {
        assert(m[0] == map_chars(ws[0], f));
    } else {
        lemma_join_map(ws.drop_last(), f);
        assert(m.drop_last() =~= ws.drop_last().map_values(g));
        assert(m.last() == map_chars(ws.last(), f));
        assert(map_chars(join(ws.drop_last(), space()) + space() + ws.last(), f) =~= map_chars(
            join(ws.drop_last(), space()),
            f,
        ) + space() + map_chars(ws.last(), f));
    }
}

/// Collapsing whitespace commutes with a character mapping that keeps
/// whitespace whitespace, everything else not, and the space a space.
pub proof fn lemma_collapse_map(s: Seq<char>, f: spec_fn(char) -> char)
    requires
        forall|c: char| #[trigger] is_space(f(c)) == is_space(c),
        f(' ') == ' ',
    ensures
        collapse(map_chars(s, f)) == map_chars(collapse(s), f),
{
    lemma_words_map(s, f);
    lemma_join_map(words(s), f);
}

/// Upper-casing ignores a character mapping that upper-cases every
/// character alike.
pub proof fn lemma_upper_map(s: Seq<char>, f: spec_fn(char) -> char)
    requires
        forall|c: char| #[trigger] char_upper(f(c)) == char_upper(c),
    ensures
        upper(map_chars(s, f)) == upper(s),
    decreases s.len(),
{
    if s.len() > 0 {
        lemma_upper_map(s.drop_last(), f);
        let t = map_chars(s, f);
        assert(t.drop_last() =~= map_chars(s.drop_last(), f));
        assert(t.last() == f(s.last()));
        assert(char_upper(f(s.last())) == char_upper(s.last()));
    }
}

/// Single-spaced text is left as it is by collapsing.
pub proof fn lemma_collapse_single_spaced(s: Seq<char>)
    requires
        single_spaced(s),
    ensures
        collapse(s) == s,
    decreases s.len(),
{
    if s.len() > 0 {
        let n = s.len() as int;
        let c = s.last();
        assert(!is_space(s[n - 1]));
        if n >= 2 && is_space(s[n - 2]) {
            let q = s.take(n - 2);
            assert(s[n - 2] == ' ');
            assert(!is_space(s[n - 3]));
            assert(single_spaced(q)) by {
                assert forall|k: int| 0 <= k < q.len() && is_space(#[trigger] q[k]) implies q[k] == ' '
                    && 0 < k < q.len() - 1 && !is_space(q[k - 1]) && !is_space(q[k + 1]) by {
                    assert(q[k] == s[k]);
                    assert(is_space(s[k]));
                    assert(q[k - 1] == s[k - 1]);
                    if k + 1 < q.len() {
                        assert(q[k + 1] == s[k + 1]);
                    }
                }
            }
            lemma_collapse_single_spaced(q);
            lemma_collapse_push(q, ' ');
            lemma_collapse_push(q.push(' '), c);
            assert(q.push(' ').last() == ' ');
            assert(q.push(' ').push(c) =~= s);
            assert(q + space() + seq![c] =~= s);
        } else {
            let p = s.drop_last();
            assert(single_spaced(p)) by {
                assert forall|k: int| 0 <= k < p.len() && is_space(#[trigger] p[k]) implies p[k] == ' '
                    && 0 < k < p.len() - 1 && !is_space(p[k - 1]) && !is_space(p[k + 1]) by {
                    assert(p[k] == s[k]);
                    assert(is_space(s[k]));
                    assert(p[k - 1] == s[k - 1]);
                    if k + 1 < p.len() {
                        assert(p[k + 1] == s[k + 1]);
                    }
                }
            }
            lemma_collapse_single_spaced(p);
            lemma_collapse_push(p, c);
            assert(p.push(c) =~= s);
            if p.len() > 0 {
                assert(p.last() == s[n - 2]);
            } else {
                assert(seq![c] =~= s);
            }
        }
    }
}

/// ASCII text upper-cases character by character, the ASCII way.
pub proof fn lemma_upper_ascii(s: Seq<char>)
    requires
        is_ascii_text(s),
    ensures
        upper(s).len() == s.len(),
        forall|k: int| 0 <= k < s.len() ==> #[trigger] upper(s)[k] == ascii_upper(s[k]),
    decreases s.len(),
{
    if s.len() > 0 {
        let p = s.drop_last();
        assert(is_ascii_text(p)) by {
            assert forall|k: int| 0 <= k < p.len() implies #[trigger] p[k] <= '\u{7f}' by {
                assert(p[k] == s[k]);
            }
        }
        lemma_upper_ascii(p);
        assert(s.last() <= '\u{7f}') by {
            assert(s.last() == s[s.len() - 1]);
        }
        assert forall|k: int| 0 <= k < s.len() implies #[trigger] upper(s)[k] == ascii_upper(s[k]) by {
            if k < p.len() {
                assert(upper(s)[k] == upper(p)[k]);
                assert(p[k] == s[k]);
            }
        }
    }
}

/// Collapsing whitespace leaves nothing exactly when there is nothing but
/// whitespace.
pub proof fn lemma_collapse_blank(s: Seq<char>)
    ensures
        (collapse(s).len() == 0) == all_space(s),
    decreases s.len(),
{
    lemma_words_are_words(s);
    assert forall|i: int| 0 <= i < words(s).len() implies (#[trigger] words(s)[i]).len() > 0 by {
        assert(is_word(words(s)[i]));
    }
    lemma_join_empty(words(s), space());
    if s.len() > 0 {
        let p = s.drop_last();
        lemma_collapse_blank(p);
        lemma_words_are_words(p);
        assert forall|i: int| 0 <= i < words(p).len() implies (#[trigger] words(p)[i]).len() > 0 by {
            assert(is_word(words(p)[i]));
        }
        lemma_join_empty(words(p), space());
        if is_space(s.last()) {
            assert(all_space(s) == all_space(p)) by {
                if all_space(p) {
                    assert forall|k: int| 0 <= k < s.len() implies is_space(#[trigger] s[k]) by {
                        if k < p.len() {
                            assert(s[k] == p[k]);
                        }
                    }
                }
                if all_space(s) {
                    assert forall|k: int| 0 <= k < p.len() implies is_space(#[trigger] p[k]) by {
                        assert(s[k] == p[k]);
                    }
                }
            }
        } else {
            lemma_words_nonempty_when_last_nonspace(s);
            assert(!is_space(s[s.len() - 1]));
        }
    }
}

// ---------------------------------------------------------------------------
// Executable functions
// ---------------------------------------------------------------------------

/// Appends one character to a `String` (std's `String::push`). The
/// contract claims that the string afterwards is the one before with `c`
/// at the end, as std documents.
#[verifier::external_body]
pub(crate) fn push_char(s: &mut String, c: char)
    ensures
        final(s)@ == old(s)@.push(c),
{
    s.push(c);
}

/// The characters of a string slice, in order.
pub fn chars_of(s: &str) -> (v: Vec<char>)
    ensures
        v@ == s@,
{
    let mut v: Vec<char> = Vec::new();
    for c in it: s.chars()
        invariant
            it.seq() == s@,
            v@ == it.seq().take(it.index() as int),
    {
        v.push(c);
    }
    v
}

/// A `String` holding exactly the given characters.
pub fn string_of(v: &[char]) -> (s: String)
    ensures
        s@ == v@,
{
    let mut s = String::new();
    let mut i: usize = 0;
    while i < v.len()
        invariant
            i <= v.len(),
            s@ == v@.take(i as int),
        decreases v.len() - i,
    {
        push_char(&mut s, v[i]);
        assert(v@.take(i + 1) == v@.take(i as int).push(v@[i as int]));
        i += 1;
    }
    s
}

/// Whether `c` is Unicode whitespace (`char::is_whitespace`).
pub fn is_space_char(c: char) -> (b: bool)
    ensures
        b == is_space(c),
{
    ('\u{9}' <= c && c <= '\u{d}') || c == ' ' || c == '\u{85}' || c == '\u{a0}'
        || c == '\u{1680}' || ('\u{2000}' <= c && c <= '\u{200a}') || c == '\u{2028}'
        || c == '\u{2029}' || c == '\u{202f}' || c == '\u{205f}' || c == '\u{3000}'
}

/// The Unicode upper-case mapping of one character: the characters that
/// std's `char::to_uppercase` yields for `c`, collected. The contract names
/// that result (`unicode_uppercase`) and adds only what std documents of
/// every mapping: it yields one or more characters. The case tables
/// themselves are not stated.
#[verifier::external_body]
fn unicode_uppercase_of(c: char) -> (r: Vec<char>)
    ensures
        r@ == unicode_uppercase(c),
        r@.len() > 0,
{
    c.to_uppercase().collect()
}

/// The upper-case form of `s`; every character upper-cases to one or more.
pub fn upper_chars(s: &[char]) -> (r: Vec<char>)
    ensures
        r@ == upper(s@),
        r@.len() >= s@.len(),
{
    let mut out: Vec<char> = Vec::new();
    let mut i: usize = 0;
    while i < s.len()
        invariant
            i <= s.len(),
            out@ == upper(s@.take(i as int)),
            out@.len() >= i,
        decreases s.len() - i,
    {
        let c = s[i];
        assert(s@.take(i + 1).drop_last() =~= s@.take(i as int));
        if c <= '\u{7f}' {
            let u = if 'a' <= c && c <= 'z' {
                ((c as u8) - 32) as char
            } else {
                c
            };
            out.push(u);
        } else {
            let mut m = unicode_uppercase_of(c);
            out.append(&mut m);
        }
        assert(out@ =~= upper(s@.take(i + 1)));
        i += 1;
    }
    assert(s@.take(s.len() as int) =~= s@);
    out
}

/// Whether `a` and `b` hold the same characters.
pub fn same_chars(a: &[char], b: &[char]) -> (r: bool)
    ensures
        r == (a@ == b@),
{
    if a.len() != b.len() {
        return false;
    }
    let mut i: usize = 0;
    while i < a.len()
        invariant
            i <= a.len(),
            a.len() == b.len(),
            forall|k: int| 0 <= k < i ==> a@[k] == b@[k],
        decreases a.len() - i,
    {
        if a[i] != b[i] {
            return false;
        }
        i += 1;
    }
    assert(a@ =~= b@);
    true
}

/// The ASCII digits of `s`, in order.
pub fn digits_of(s: &[char]) -> (r: Vec<char>)
    ensures
        r@ == digits(s@),
{
    let mut out: Vec<char> = Vec::new();
    let mut i: usize = 0;
    while i < s.len()
        invariant
            i <= s.len(),
            out@ == digits(s@.take(i as int)),
        decreases s.len() - i,
    {
        assert(s@.take(i + 1).drop_last() =~= s@.take(i as int));
        if '0' <= s[i] && s[i] <= '9' {
            out.push(s[i]);
        }
        i += 1;
    }
    assert(s@.take(s.len() as int) =~= s@);
    out
}

/// The non-blank, whitespace-collapsed pieces of `s` between line breaks
/// and commas.
pub fn segments_of(s: &[char]) -> (r: Vec<Vec<char>>)
    ensures
        views(r@) == segments(s@),
{
    let mut out: Vec<Vec<char>> = Vec::new();
    let mut cur: Vec<char> = Vec::new();
    let mut i: usize = 0;
    while i < s.len()
        invariant
            i <= s.len(),
            pieces(s@.take(i as int)).len() > 0,
            cur@ == pieces(s@.take(i as int)).last(),
            views(out@) == nonblank(collapse_each(pieces(s@.take(i as int)).drop_last())),
        decreases s.len() - i,
    {
        let c = s[i];
        let ghost p = pieces(s@.take(i as int));
        assert(s@.take(i + 1).drop_last() =~= s@.take(i as int));
        if c == '\n' || c == ',' {
            let piece = collapse_chars(&cur);
            proof {
                let q = pieces(s@.take(i + 1));
                assert(q.drop_last() =~= p);
                assert(p.drop_last().push(p.last()) =~= p);
                lemma_collapse_each_push(p.drop_last(), p.last());
                lemma_nonblank_push(collapse_each(p.drop_last()), collapse(p.last()));
            }
            if piece.len() > 0 {
                out.push(piece);
            }
            assert(views(out@) =~= nonblank(collapse_each(p)));
            cur = Vec::new();
        } else {
            cur.push(c);
            proof {
                let q = pieces(s@.take(i + 1));
                assert(q.drop_last() =~= p.drop_last());
            }
        }
        i += 1;
    }
    let piece = collapse_chars(&cur);
    let ghost p = pieces(s@);
    proof {
        assert(s@.take(s.len() as int) =~= s@);
        assert(p.drop_last().push(p.last()) =~= p);
        lemma_collapse_each_push(p.drop_last(), p.last());
        lemma_nonblank_push(collapse_each(p.drop_last()), collapse(p.last()));
    }
    if piece.len() > 0 {
        out.push(piece);
    }
    assert(views(out@) =~= segments(s@));
    out
}

/// The whitespace-separated words of `s`.
pub fn words_of(s: &[char]) -> (r: Vec<Vec<char>>)
    ensures
        views(r@) == words(s@),
{
    let mut out: Vec<Vec<char>> = Vec::new();
    let mut i: usize = 0;
    while i < s.len()
        invariant
            i <= s.len(),
            views(out@) == words(s@.take(i as int)),
        decreases s.len() - i,
    {
        let c = s[i];
        let ghost p = s@.take(i as int);
        let ghost before = views(out@);
        assert(s@.take(i + 1).drop_last() =~= p);
        assert(i > 0 ==> s@.take(i + 1)[i - 1] == s@[i - 1]);
        if !is_space_char(c) {
            if i > 0 && !is_space_char(s[i - 1]) {
                proof {
                    assert(s@.take(i + 1)[i - 1] == s@[i - 1]);
                    lemma_words_nonempty_when_last_nonspace(p);
                }
                let mut last = out.pop().unwrap();
                last.push(c);
                out.push(last);
                assert(views(out@) =~= before.drop_last().push(before.last().push(c)));
            } else {
                let w = vec![c];
                assert(w@ =~= seq![c]);
                out.push(w);
                assert(views(out@) =~= before.push(seq![c]));
            }
        }
        assert(views(out@) =~= words(s@.take(i + 1)));
        i += 1;
    }
    assert(s@.take(s.len() as int) =~= s@);
    out
}

/// The pieces of `ws` with `sep` between each two neighbours.
pub fn join_of(ws: &[Vec<char>], sep: &[char]) -> (r: Vec<char>)
    ensures
        r@ == join(views(ws@), sep@),
{
    let mut out: Vec<char> = Vec::new();
    let mut i: usize = 0;
    while i < ws.len()
        invariant
            i <= ws.len(),
            out@ == join(views(ws@.take(i as int)), sep@),
        decreases ws.len() - i,
    {
        proof {
            assert(views(ws@.take(i + 1)) =~= views(ws@.take(i as int)).push(ws@[i as int]@));
            lemma_join_push(views(ws@.take(i as int)), sep@, ws@[i as int]@);
        }
        if i > 0 {
            let mut sp = vstd::slice::slice_to_vec(sep);
            out.append(&mut sp);
        }
        let mut w = ws[i].clone();
        out.append(&mut w);
        i += 1;
    }
    assert(ws@.take(ws.len() as int) =~= ws@);
    out
}

/// Collapses runs of whitespace in `s` to single spaces and trims the ends.
pub fn collapse_chars(s: &[char]) -> (r: Vec<char>)
    ensures
        r@ == collapse(s@),
{
    let mut out: Vec<char> = Vec::new();
    let mut i: usize = 0;
    while i < s.len()
        invariant
            i <= s.len(),
            out@ == collapse(s@.take(i as int)),
        decreases s.len() - i,
    {
        let c = s[i];
        proof {
            lemma_collapse_push(s@.take(i as int), c);
            assert(s@.take(i + 1) =~= s@.take(i as int).push(c));
        }
        if !is_space_char(c) {
            if i > 0 && is_space_char(s[i - 1]) && out.len() > 0 {
                out.push(' ');
            }
            out.push(c);
        }
        proof {
            if i > 0 {
                assert(s@.take(i as int).last() == s@[i - 1]);
            }
            assert(out@ =~= collapse(s@.take(i + 1)));
        }
        i += 1;
    }
    assert(s@.take(s.len() as int) =~= s@);
    out
}

} // verus!
