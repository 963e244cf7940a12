//! Character-sequence model of the X12 text operations: whitespace
//! trimming, splitting on a delimiter, joining with a delimiter, and
//! decimal strings for the envelope counts. Every executable routine here
//! is specified against a spec-level function on `Seq<char>`, and the
//! inverse lemmas (split of a join, value of a digit string) that the
//! round-trip argument rests on live here too.

use vstd::prelude::*;
use vstd::string::StrSliceExecFns;
use vstd::string::StringExecFns;

verus! {

/// The whitespace characters stripped from segment and element
/// boundaries: the set the standard library's trimming recognizes.
pub open spec fn is_ws(c: char) -> bool {
    c == ' ' || c == '\t' || c == '\n' || c == '\r' || c == '\u{b}' || c == '\u{c}'
        || c == '\u{85}' || c == '\u{a0}' || c == '\u{1680}' || c == '\u{2000}'
        || c == '\u{2001}' || c == '\u{2002}' || c == '\u{2003}' || c == '\u{2004}'
        || c == '\u{2005}' || c == '\u{2006}' || c == '\u{2007}' || c == '\u{2008}'
        || c == '\u{2009}' || c == '\u{200a}' || c == '\u{2028}' || c == '\u{2029}'
        || c == '\u{202f}' || c == '\u{205f}' || c == '\u{3000}'
}

/// `s` holds no occurrence of the character `c`.
pub open spec fn lacks(s: Seq<char>, c: char) -> bool {
    forall|i: int| 0 <= i < s.len() ==> s[i] != c
}

/// `s` with leading whitespace removed.
pub open spec fn trim_front(s: Seq<char>) -> Seq<char>
    decreases s.len(),
{
    if s.len() > 0 && is_ws(s.first()) {
        trim_front(s.drop_first())
    } else {
        s
    }
}

/// `s` with trailing whitespace removed.
pub open spec fn trim_back(s: Seq<char>) -> Seq<char>
    decreases s.len(),
{
    if s.len() > 0 && is_ws(s.last()) {
        trim_back(s.drop_last())
    } else {
        s
    }
}

/// `s` with both leading and trailing whitespace removed.
pub open spec fn trimmed(s: Seq<char>) -> Seq<char> {
    trim_back(trim_front(s))
}

/// The pieces of `s` delimited by `d`, in order. Splitting always yields at
/// least one piece; the delimiter itself appears in none of them.
pub open spec fn split_on(s: Seq<char>, d: char) -> Seq<Seq<char>>
    decreases s.len(),
{
    if s.len() == 0 {
        seq![Seq::<char>::empty()]
    } else if s.first() == d {
        seq![Seq::<char>::empty()] + split_on(s.drop_first(), d)
    } else {
        let rest = split_on(s.drop_first(), d);
        seq![seq![s.first()] + rest.first()] + rest.drop_first()
    }
}

/// The pieces of `parts` concatenated with `d` between consecutive pieces.
pub open spec fn join_on(parts: Seq<Seq<char>>, d: char) -> Seq<char>
    decreases parts.len(),
{
    if parts.len() == 0 {
        Seq::<char>::empty()
    } else if parts.len() == 1 {
        parts.first()
    } else {
        parts.first() + seq![d] + join_on(parts.drop_first(), d)
    }
}

/// The views of a sequence of owned strings.
pub open spec fn strs_view(v: Seq<String>) -> Seq<Seq<char>> {
    Seq::new(v.len(), |i: int| v[i]@)
}

/// The views of a sequence of token vectors.
pub open spec fn groups_view(v: Seq<Vec<String>>) -> Seq<Seq<Seq<char>>> {
    Seq::new(v.len(), |i: int| strs_view(v[i]@))
}

pub proof fn lemma_split_on_nonempty(s: Seq<char>, d: char)
    ensures
        split_on(s, d).len() >= 1,
    decreases s.len(),
{
    if s.len() == 0 {
    } else {
        lemma_split_on_nonempty(s.drop_first(), d);
    }
}

/// How splitting changes when one character is appended: a delimiter opens
/// a fresh empty piece, any other character extends the last piece.
pub proof fn lemma_split_on_push(s: Seq<char>, d: char, c: char)
    ensures
        c == d ==> split_on(s.push(c), d) == split_on(s, d).push(Seq::<char>::empty()),
        c != d ==> split_on(s.push(c), d) == split_on(s, d).update(
            split_on(s, d).len() - 1,
            split_on(s, d).last().push(c),
        ),
    decreases s.len(),
{
    lemma_split_on_nonempty(s, d);
    reveal_with_fuel(split_on, 3);
    if s.len() == 0 {
        assert(s.push(c) =~= seq![c]);
        assert(seq![c].drop_first() =~= Seq::<char>::empty());
        if c == d {
            assert(split_on(s.push(c), d) =~~= split_on(s, d).push(Seq::<char>::empty()));
        } else {
            assert(seq![c] + split_on(Seq::<char>::empty(), d).first() =~= seq![c]);
            assert(split_on(s.push(c), d) =~~= split_on(s, d).update(
                0,
                split_on(s, d).last().push(c),
            ));
        }
    } else {
        let s2 = s.push(c);
        assert(s2.first() == s.first());
        assert(s2.drop_first() =~= s.drop_first().push(c));
        lemma_split_on_push(s.drop_first(), d, c);
        lemma_split_on_nonempty(s.drop_first(), d);
        let rd = split_on(s.drop_first(), d);
        if s.first() == d {
            if c == d {
                assert(split_on(s2, d) =~~= split_on(s, d).push(Seq::<char>::empty()));
            } else {
                assert(split_on(s2, d) =~~= split_on(s, d).update(
                    split_on(s, d).len() - 1,
                    split_on(s, d).last().push(c),
                ));
            }
        } else {
            if c == d {
                let rdp = rd.push(Seq::<char>::empty());
                assert(rdp.first() == rd.first());
                assert(rdp.drop_first() =~= rd.drop_first().push(Seq::<char>::empty()));
                assert(split_on(s2, d) =~~= split_on(s, d).push(Seq::<char>::empty()));
            } else {
                let rdp = rd.update(rd.len() - 1, rd.last().push(c));
                if rd.len() == 1 {
                    assert(rdp.first() == rd.first().push(c));
                    assert(rdp.drop_first() =~= rd.drop_first());
                    assert(seq![seq![s.first()] + rd.first().push(c)] =~= seq![
                        (seq![s.first()] + rd.first()).push(c),
                    ]);
                    assert(split_on(s2, d) =~~= split_on(s, d).update(
                        split_on(s, d).len() - 1,
                        split_on(s, d).last().push(c),
                    ));
                } else {
                    assert(rdp.first() == rd.first());
                    assert(rdp.drop_first() =~= rd.drop_first().update(
                        rd.drop_first().len() - 1,
                        rd.drop_first().last().push(c),
                    ));
                    assert(split_on(s2, d) =~~= split_on(s, d).update(
                        split_on(s, d).len() - 1,
                        split_on(s, d).last().push(c),
                    ));
                }
            }
        }
    }
}

/// A string without the delimiter splits into itself alone.
pub proof fn lemma_split_no_delim(s: Seq<char>, d: char)
    requires
        lacks(s, d),
    ensures
        split_on(s, d) == seq![s],
    decreases s.len(),
{
    reveal_with_fuel(split_on, 2);
    if s.len() == 0 {
        assert(split_on(s, d) =~~= seq![s]);
    } else {
        assert(s[0] != d);
        assert(lacks(s.drop_first(), d)) by {
            assert(forall|i: int|
                0 <= i < s.drop_first().len() ==> s.drop_first()[i] == s[i + 1]);
        }
        lemma_split_no_delim(s.drop_first(), d);
        assert(seq![s.first()] + s.drop_first() =~= s);
        assert(seq![s.drop_first()].drop_first() =~= Seq::<Seq<char>>::empty());
        assert(split_on(s, d) =~~= seq![s]);
    }
}

/// Splitting a string of the form `a d t` peels off `a` whole, when `a`
/// itself has no delimiter in it.
pub proof fn lemma_split_prefix(a: Seq<char>, t: Seq<char>, d: char)
    requires
        lacks(a, d),
    ensures
        split_on(a + seq![d] + t, d) == seq![a] + split_on(t, d),
    decreases a.len(),
{
    if a.len() == 0 {
        let s = a + seq![d] + t;
        assert(s =~= seq![d] + t);
        assert(s.first() == d);
        assert(s.drop_first() =~= t);
        assert(seq![Seq::<char>::empty()] =~~= seq![a]);
        assert(split_on(s, d) =~~= seq![a] + split_on(t, d));
    } else {
        let s = a + seq![d] + t;
        assert(s.first() == a[0]);
        assert(a[0] != d);
        assert(s.drop_first() =~= a.drop_first() + seq![d] + t);
        assert(lacks(a.drop_first(), d)) by {
            assert(forall|i: int|
                0 <= i < a.drop_first().len() ==> a.drop_first()[i] == a[i + 1]);
        }
        lemma_split_prefix(a.drop_first(), t, d);
        let rest = seq![a.drop_first()] + split_on(t, d);
        assert(rest.first() == a.drop_first());
        assert(rest.drop_first() =~= split_on(t, d));
        assert(seq![s.first()] + rest.first() =~= a);
        assert(split_on(s, d) =~~= seq![a] + split_on(t, d));
    }
}

/// Splitting undoes joining, when no piece holds the delimiter.
pub proof fn lemma_split_join(parts: Seq<Seq<char>>, d: char)
    requires
        parts.len() >= 1,
        forall|i: int| 0 <= i < parts.len() ==> lacks(#[trigger] parts[i], d),
    ensures
        split_on(join_on(parts, d), d) == parts,
    decreases parts.len(),
{
    if parts.len() == 1 {
        lemma_split_no_delim(parts.first(), d);
        assert(split_on(join_on(parts, d), d) =~~= parts);
    } else {
        lemma_split_prefix(parts.first(), join_on(parts.drop_first(), d), d);
        lemma_split_join(parts.drop_first(), d);
        assert(split_on(join_on(parts, d), d) =~~= parts);
    }
}

/// Joining distributes over concatenation of the piece lists.
pub proof fn lemma_join_on_concat(a: Seq<Seq<char>>, b: Seq<Seq<char>>, d: char)
    requires
        a.len() >= 1,
        b.len() >= 1,
    ensures
        join_on(a + b, d) == join_on(a, d) + seq![d] + join_on(b, d),
    decreases a.len(),
{
    if a.len() == 1 {
        assert((a + b).first() == a[0]);
        assert((a + b).drop_first() =~= b);
        assert(join_on(a + b, d) =~= join_on(a, d) + seq![d] + join_on(b, d));
    } else {
        assert((a + b).first() == a[0]);
        assert((a + b).drop_first() =~= a.drop_first() + b);
        lemma_join_on_concat(a.drop_first(), b, d);
        assert(join_on(a + b, d) =~= join_on(a, d) + seq![d] + join_on(b, d));
    }
}

/// Appending one more piece appends a delimiter and that piece.
pub proof fn lemma_join_on_push(parts: Seq<Seq<char>>, d: char, p: Seq<char>)
    requires
        parts.len() >= 1,
    ensures
        join_on(parts.push(p), d) == join_on(parts, d) + seq![d] + p,
{
    assert(parts.push(p) =~= parts + seq![p]);
    lemma_join_on_concat(parts, seq![p], d);
}

/// A run of `n` space characters.
pub open spec fn spaces(n: nat) -> Seq<char> {
    Seq::new(n, |i: int| ' ')
}

/// `s` right-padded with spaces to width `w`; a string already at least
/// `w` long is left alone.
pub open spec fn pad(s: Seq<char>, w: nat) -> Seq<char> {
    if s.len() >= w {
        s
    } else {
        s + spaces((w - s.len()) as nat)
    }
}

pub proof fn lemma_trim_front_len(s: Seq<char>)
    ensures
        trim_front(s).len() <= s.len(),
    decreases s.len(),
{
    if s.len() > 0 && is_ws(s.first()) {
        lemma_trim_front_len(s.drop_first());
    }
}

pub proof fn lemma_trim_back_len(s: Seq<char>)
    ensures
        trim_back(s).len() <= s.len(),
    decreases s.len(),
{
    if s.len() > 0 && is_ws(s.last()) {
        lemma_trim_back_len(s.drop_last());
    }
}

/// A nonempty string that trimming leaves alone begins and ends with
/// non-whitespace, and the other way round.
pub proof fn lemma_trimmed_fixed(s: Seq<char>)
    requires
        s.len() > 0,
        !is_ws(s.first()),
        !is_ws(s.last()),
    ensures
        trimmed(s) == s,
{
}

pub proof fn lemma_trimmed_id_ends(s: Seq<char>)
    requires
        trimmed(s) == s,
        s.len() > 0,
    ensures
        !is_ws(s.first()),
        !is_ws(s.last()),
{
    lemma_trim_front_len(s);
    lemma_trim_back_len(s);
    if is_ws(s.first()) {
        lemma_trim_front_len(s.drop_first());
        lemma_trim_back_len(trim_front(s.drop_first()));
        assert(false);
    }
    if is_ws(s.last()) {
        assert(trim_front(s) == s);
        lemma_trim_back_len(s.drop_last());
        assert(false);
    }
}

/// Trailing spaces vanish under back-trimming.
pub proof fn lemma_trim_back_spaces(s: Seq<char>, k: nat)
    ensures
        trim_back(s + spaces(k)) == trim_back(s),
    decreases k,
{
    if k == 0 {
        assert(s + spaces(0) =~= s);
    } else {
        let w = s + spaces(k);
        assert(w.len() > 0);
        assert(w.last() == ' ');
        assert(w.drop_last() =~= s + spaces((k - 1) as nat));
        lemma_trim_back_spaces(s, (k - 1) as nat);
    }
}

pub proof fn lemma_trim_front_spaces(k: nat)
    ensures
        trim_front(spaces(k)) == Seq::<char>::empty(),
    decreases k,
{
    if k == 0 {
        assert(spaces(0) =~= Seq::<char>::empty());
    } else {
        assert(spaces(k).first() == ' ');
        assert(spaces(k).drop_first() =~= spaces((k - 1) as nat));
        lemma_trim_front_spaces((k - 1) as nat);
    }
}

/// A trimmed field comes back out of its padded form untouched.
pub proof fn lemma_trimmed_pad(f: Seq<char>, w: nat)
    requires
        trimmed(f) == f,
    ensures
        trimmed(pad(f, w)) == f,
{
    if f.len() >= w {
    } else {
        let k = (w - f.len()) as nat;
        if f.len() == 0 {
            assert(f + spaces(k) =~= spaces(k));
            lemma_trim_front_spaces(k);
            assert(trimmed(pad(f, w)) =~= f);
        } else {
            lemma_trimmed_id_ends(f);
            assert(!is_ws((f + spaces(k)).first()));
            assert(trim_front(f + spaces(k)) == f + spaces(k));
            lemma_trim_back_spaces(f, k);
            assert(trim_back(f) == f);
        }
    }
}

/// A character absent from the delimiter and from every piece is absent
/// from their join.
pub proof fn lemma_join_lacks(parts: Seq<Seq<char>>, d: char, c: char)
    requires
        c != d,
        forall|i: int| 0 <= i < parts.len() ==> lacks(#[trigger] parts[i], c),
    ensures
        lacks(join_on(parts, d), c),
    decreases parts.len(),
{
    if parts.len() == 0 {
    } else if parts.len() == 1 {
        assert(lacks(parts[0], c));
    } else {
        assert(forall|i: int|
            0 <= i < parts.drop_first().len() ==> parts.drop_first()[i] == parts[i + 1]);
        lemma_join_lacks(parts.drop_first(), d, c);
        assert(lacks(parts[0], c));
        assert(forall|i: int|
            0 <= i < join_on(parts, d).len() ==> join_on(parts, d)[i] != c) by {
            assert(join_on(parts, d) == parts.first() + seq![d] + join_on(parts.drop_first(), d));
        }
    }
}

/// A join starts with the first character of its first piece.
pub proof fn lemma_join_first(parts: Seq<Seq<char>>, d: char)
    requires
        parts.len() >= 1,
        parts[0].len() >= 1,
    ensures
        join_on(parts, d).len() >= 1,
        join_on(parts, d).first() == parts[0].first(),
{
}

/// A join ends with the last character of its last piece, or with the
/// delimiter when the last piece is empty.
pub proof fn lemma_join_last(parts: Seq<Seq<char>>, d: char)
    requires
        parts.len() >= 1,
    ensures
        parts.last().len() > 0 ==> join_on(parts, d).len() >= 1 && join_on(parts, d).last()
            == parts.last().last(),
        parts.last().len() == 0 && parts.len() >= 2 ==> join_on(parts, d).len() >= 1 && join_on(
            parts,
            d,
        ).last() == d,
    decreases parts.len(),
{
    if parts.len() == 1 {
    } else {
        let rest = parts.drop_first();
        lemma_join_last(rest, d);
        assert(rest.last() == parts.last());
        if rest.len() == 1 && rest.last().len() == 0 {
            assert(join_on(rest, d) == rest[0]);
            assert(join_on(parts, d) == parts.first() + seq![d] + join_on(rest, d));
        }
    }
}

/// The canonical digit string holds only digit characters.
pub proof fn lemma_dec_digits_lacks(n: nat, c: char)
    requires
        !is_dec_digit(c),
    ensures
        lacks(dec_digits(n), c),
        dec_digits(n).len() >= 1,
        !is_ws(dec_digits(n).first()),
        !is_ws(dec_digits(n).last()),
{
    lemma_dec_digits_shape(n);
    assert(forall|i: int| 0 <= i < dec_digits(n).len() ==> dec_digits(n)[i] != c) by {
        assert(forall|i: int|
            0 <= i < dec_digits(n).len() ==> is_dec_digit(#[trigger] dec_digits(n)[i]));
    }
    assert(is_dec_digit(dec_digits(n).first()));
    assert(is_dec_digit(dec_digits(n).last()));
}

/// A padded field holds no character that its bare form and the space
/// character lack.
pub proof fn lemma_pad_lacks(f: Seq<char>, w: nat, c: char)
    requires
        lacks(f, c),
        c != ' ',
    ensures
        lacks(pad(f, w), c),
{
    if f.len() < w {
        assert(forall|i: int| 0 <= i < pad(f, w).len() ==> pad(f, w)[i] != c) by {
            assert(forall|i: int|
                f.len() <= i < pad(f, w).len() ==> pad(f, w)[i] == ' ');
        }
    }
}

/// A field no longer than the width pads to exactly the width.
pub proof fn lemma_pad_len(f: Seq<char>, w: nat)
    requires
        f.len() <= w,
    ensures
        pad(f, w).len() == w,
{
}

/// Each group of pieces joined into one string with `d`.
pub open spec fn joined_each(gs: Seq<Seq<Seq<char>>>, d: char) -> Seq<Seq<char>> {
    Seq::new(gs.len(), |i: int| join_on(gs[i], d))
}

/// Joining each group first and then joining the results is the same as
/// joining the flattened list of pieces, as long as no group is empty.
pub proof fn lemma_join_flatten(gs: Seq<Seq<Seq<char>>>, d: char)
    requires
        forall|i: int| 0 <= i < gs.len() ==> #[trigger] gs[i].len() >= 1,
    ensures
        join_on(joined_each(gs, d), d) == join_on(gs.flatten(), d),
    decreases gs.len(),
{
    if gs.len() == 0 {
        assert(joined_each(gs, d) =~~= Seq::<Seq<char>>::empty());
        assert(gs.flatten() =~~= Seq::<Seq<char>>::empty());
    } else if gs.len() == 1 {
        assert(joined_each(gs, d) =~~= seq![join_on(gs[0], d)]);
        assert(gs.drop_first().flatten() =~~= Seq::<Seq<char>>::empty());
        assert(gs.flatten() =~~= gs[0]);
        assert(join_on(joined_each(gs, d), d) == join_on(gs.flatten(), d));
    } else {
        let rest = gs.drop_first();
        assert(forall|i: int| 0 <= i < rest.len() ==> #[trigger] rest[i].len() >= 1) by {
            assert(forall|i: int| 0 <= i < rest.len() ==> rest[i] == gs[i + 1]);
        }
        lemma_join_flatten(rest, d);
        assert(joined_each(gs, d) =~~= seq![join_on(gs[0], d)] + joined_each(rest, d));
        assert(joined_each(gs, d).first() == join_on(gs[0], d));
        assert(joined_each(gs, d).drop_first() =~~= joined_each(rest, d));
        assert(rest.flatten() =~~= rest.first() + rest.drop_first().flatten());
        assert(rest.flatten().len() >= 1);
        lemma_join_on_concat(gs[0], rest.flatten(), d);
        assert(gs.flatten() =~~= gs[0] + rest.flatten());
        assert(join_on(joined_each(gs, d), d) == join_on(gs.flatten(), d));
    }
}

/// Every element trimmed of surrounding whitespace.
pub open spec fn trim_each(ts: Seq<Seq<char>>) -> Seq<Seq<char>> {
    Seq::new(ts.len(), |i: int| trimmed(ts[i]))
}

/// Segment candidates after trimming, with the blank ones dropped.
pub open spec fn clean_segments(raws: Seq<Seq<char>>) -> Seq<Seq<char>>
    decreases raws.len(),
{
    if raws.len() == 0 {
        Seq::<Seq<char>>::empty()
    } else {
        let rest = clean_segments(raws.drop_last());
        if trimmed(raws.last()).len() > 0 {
            rest.push(trimmed(raws.last()))
        } else {
            rest
        }
    }
}

/// Each segment split into its elements.
pub open spec fn split_all(segs: Seq<Seq<char>>, elem_d: char) -> Seq<Seq<Seq<char>>>
    decreases segs.len(),
{
    if segs.len() == 0 {
        Seq::<Seq<Seq<char>>>::empty()
    } else {
        split_all(segs.drop_last(), elem_d).push(split_on(segs.last(), elem_d))
    }
}

/// The token groups of a whole document: segments split out, trimmed,
/// blanks dropped, and each remaining segment split into elements.
pub open spec fn token_groups(input: Seq<char>, elem_d: char, seg_d: char) -> Seq<Seq<Seq<char>>> {
    split_all(clean_segments(split_on(input, seg_d)), elem_d)
}

pub proof fn lemma_split_all_shape(segs: Seq<Seq<char>>, elem_d: char)
    ensures
        split_all(segs, elem_d).len() == segs.len(),
        forall|k: int|
            0 <= k < segs.len() ==> #[trigger] split_all(segs, elem_d)[k] == split_on(
                segs[k],
                elem_d,
            ),
        forall|k: int|
            0 <= k < segs.len() ==> #[trigger] split_all(segs, elem_d)[k].len() >= 1,
    decreases segs.len(),
{
    if segs.len() > 0 {
        lemma_split_all_shape(segs.drop_last(), elem_d);
        lemma_split_on_nonempty(segs.last(), elem_d);
        assert(forall|k: int|
            0 <= k < segs.len() - 1 ==> segs.drop_last()[k] == segs[k]);
    }
}

/// Cleaning is the identity on a list of segments that are already
/// trimmed and nonempty.
pub proof fn lemma_clean_segments_id(raws: Seq<Seq<char>>)
    requires
        forall|k: int|
            0 <= k < raws.len() ==> trimmed(#[trigger] raws[k]) == raws[k] && raws[k].len() > 0,
    ensures
        clean_segments(raws) == raws,
    decreases raws.len(),
{
    if raws.len() > 0 {
        assert(forall|k: int|
            0 <= k < raws.drop_last().len() ==> raws.drop_last()[k] == raws[k]);
        lemma_clean_segments_id(raws.drop_last());
        assert(clean_segments(raws) =~~= raws);
    }
}

/// The character for one decimal digit value.
pub open spec fn dec_digit_char(d: nat) -> char {
    if d == 0 {
        '0'
    } else if d == 1 {
        '1'
    } else if d == 2 {
        '2'
    } else if d == 3 {
        '3'
    } else if d == 4 {
        '4'
    } else if d == 5 {
        '5'
    } else if d == 6 {
        '6'
    } else if d == 7 {
        '7'
    } else if d == 8 {
        '8'
    } else {
        '9'
    }
}

pub open spec fn is_dec_digit(c: char) -> bool {
    c == '0' || c == '1' || c == '2' || c == '3' || c == '4' || c == '5' || c == '6' || c == '7'
        || c == '8' || c == '9'
}

/// The value of one decimal digit character; anything else counts as zero.
pub open spec fn digit_of(c: char) -> nat {
    if c == '1' {
        1
    } else if c == '2' {
        2
    } else if c == '3' {
        3
    } else if c == '4' {
        4
    } else if c == '5' {
        5
    } else if c == '6' {
        6
    } else if c == '7' {
        7
    } else if c == '8' {
        8
    } else if c == '9' {
        9
    } else {
        0
    }
}

/// The canonical decimal digit string of `n`, without leading zeroes
/// (except for `n == 0`, which is the single digit `0`).
pub open spec fn dec_digits(n: nat) -> Seq<char>
    decreases n,
{
    if n < 10 {
        seq![dec_digit_char(n)]
    } else {
        dec_digits(n / 10).push(dec_digit_char(n % 10))
    }
}

pub open spec fn all_dec_digits(s: Seq<char>) -> bool {
    forall|i: int| 0 <= i < s.len() ==> is_dec_digit(#[trigger] s[i])
}

pub open spec fn dec_val_of(s: Seq<char>) -> nat
    decreases s.len(),
{
    if s.len() == 0 {
        0
    } else {
        dec_val_of(s.drop_last()) * 10 + digit_of(s.last())
    }
}

/// The numeric reading of a string: its decimal value when it is one or
/// more digits, and nothing otherwise.
pub open spec fn dec_value(s: Seq<char>) -> Option<nat> {
    if s.len() >= 1 && all_dec_digits(s) {
        Some(dec_val_of(s))
    } else {
        None
    }
}

pub proof fn lemma_dec_digits_shape(n: nat)
    ensures
        dec_digits(n).len() >= 1,
        all_dec_digits(dec_digits(n)),
    decreases n,
{
    if n < 10 {
    } else {
        lemma_dec_digits_shape(n / 10);
        assert(forall|i: int|
            0 <= i < dec_digits(n / 10).len() ==> dec_digits(n)[i] == dec_digits(n / 10)[i]);
        assert(dec_digits(n).last() == dec_digit_char(n % 10));
    }
}

pub proof fn lemma_dec_val_of_push(s: Seq<char>, c: char)
    ensures
        dec_val_of(s.push(c)) == dec_val_of(s) * 10 + digit_of(c),
{
    assert(s.push(c).drop_last() =~= s);
    assert(s.push(c).last() == c);
}

/// Reading back the canonical digit string gives the number itself.
pub proof fn lemma_dec_digits_value(n: nat)
    ensures
        dec_value(dec_digits(n)) == Some(n),
    decreases n,
{
    lemma_dec_digits_shape(n);
    reveal_with_fuel(dec_val_of, 3);
    if n < 10 {
        assert(seq![dec_digit_char(n)].drop_last() =~= Seq::<char>::empty());
        assert(seq![dec_digit_char(n)].last() == dec_digit_char(n));
        assert(digit_of(dec_digit_char(n)) == n);
        assert(dec_val_of(dec_digits(n)) == n);
    } else {
        lemma_dec_digits_value(n / 10);
        lemma_dec_val_of_push(dec_digits(n / 10), dec_digit_char(n % 10));
        vstd::arithmetic::div_mod::lemma_fundamental_div_mod(n as int, 10);
        assert(dec_val_of(dec_digits(n)) == n);
    }
}

/// Extending a digit string can only increase its value.
pub proof fn lemma_dec_val_monotone(s: Seq<char>, i: int, j: int)
    requires
        0 <= i <= j <= s.len(),
    ensures
        dec_val_of(s.take(i)) <= dec_val_of(s.take(j)),
    decreases j - i,
{
    if i < j {
        lemma_dec_val_monotone(s, i, j - 1);
        assert(s.take(j) =~= s.take(j - 1).push(s[j - 1]));
        lemma_dec_val_of_push(s.take(j - 1), s[j - 1]);
        assert(dec_val_of(s.take(j - 1)) * 10 >= dec_val_of(s.take(j - 1)));
    }
}

/// Relies on String::push: appends the given character to the end of the
/// string, and nothing else.
#[verifier::external_body]
pub(crate) fn push_char(s: &mut String, c: char)
    ensures
        final(s)@ == old(s)@.push(c),
{
    s.push(c);
}

/// A copy of a token vector with the same sequence of strings.
pub fn clone_tokens(v: &Vec<String>) -> (r: Vec<String>)
    ensures
        r@ == v@,
{
    let r = v.clone();
    proof {
        assert(r@ =~= v@);
    }
    r
}

/// Character-for-character string slice equality.
pub fn str_eq(a: &str, b: &str) -> (r: bool)
    ensures
        r == (a@ == b@),
{
    let sa = a.to_owned();
    let sb = b.to_owned();
    sa == sb
}

pub fn is_ws_char(c: char) -> (r: bool)
    ensures
        r == is_ws(c),
{
    c == ' ' || c == '\t' || c == '\n' || c == '\r' || c == '\u{b}' || c == '\u{c}'
        || c == '\u{85}' || c == '\u{a0}' || c == '\u{1680}' || c == '\u{2000}'
        || c == '\u{2001}' || c == '\u{2002}' || c == '\u{2003}' || c == '\u{2004}'
        || c == '\u{2005}' || c == '\u{2006}' || c == '\u{2007}' || c == '\u{2008}'
        || c == '\u{2009}' || c == '\u{200a}' || c == '\u{2028}' || c == '\u{2029}'
        || c == '\u{202f}' || c == '\u{205f}' || c == '\u{3000}'
}

/// The slice with surrounding whitespace removed, as an owned string.
pub fn trim_of(s: &str) -> (r: String)
    ensures
        r@ == trimmed(s@),
{
    let n: usize = s.unicode_len();
    let mut start: usize = 0;
    proof {
        assert(s@.skip(0) =~= s@);
    }
    while start < n && is_ws_char(s.get_char(start))
        invariant
            0 <= start <= n,
            n == s@.len(),
            trim_front(s@) == trim_front(s@.skip(start as int)),
        decreases n - start,
    {
        proof {
            assert(s@.skip(start as int).first() == s@[start as int]);
            assert(s@.skip(start as int).drop_first() =~= s@.skip(start as int + 1));
        }
        start = start + 1;
    }
    proof {
        if start == n {
            assert(s@.skip(start as int) =~= Seq::<char>::empty());
        } else {
            assert(s@.skip(start as int).first() == s@[start as int]);
        }
        assert(trim_front(s@) == s@.skip(start as int));
    }
    let mut end: usize = n;
    while end > start && is_ws_char(s.get_char(end - 1))
        invariant
            start <= end <= n,
            n == s@.len(),
            trim_front(s@) == s@.skip(start as int),
            trimmed(s@) == trim_back(s@.subrange(start as int, end as int)),
        decreases end,
    {
        proof {
            let u = s@.subrange(start as int, end as int);
            assert(u.last() == s@[end - 1]);
            assert(u.drop_last() =~= s@.subrange(start as int, end as int - 1));
        }
        end = end - 1;
    }
    proof {
        let u = s@.subrange(start as int, end as int);
        if end == start {
            assert(u =~= Seq::<char>::empty());
        } else {
            assert(u.last() == s@[end - 1]);
        }
        assert(trimmed(s@) == u);
    }
    s.substring_char(start, end).to_owned()
}

/// The pieces of `s` delimited by `d`, as owned strings.
pub fn split_string(s: &str, d: char) -> (parts: Vec<String>)
    ensures
        strs_view(parts@) == split_on(s@, d),
        parts@.len() >= 1,
{
    let n: usize = s.unicode_len();
    let mut parts: Vec<String> = Vec::new();
    let mut cur: String = String::new();
    let mut i: usize = 0;
    proof {
        assert(s@.take(0) =~= Seq::<char>::empty());
        assert(strs_view(parts@).push(cur@) =~~= split_on(s@.take(0), d));
    }
    while i < n
        invariant
            0 <= i <= n,
            n == s@.len(),
            split_on(s@.take(i as int), d) == strs_view(parts@).push(cur@),
        decreases n - i,
    {
        let c = s.get_char(i);
        proof {
            lemma_split_on_push(s@.take(i as int), d, c);
            assert(s@.take(i as int + 1) =~= s@.take(i as int).push(c));
            lemma_split_on_nonempty(s@.take(i as int), d);
        }
        if c == d {
            let ghost old_parts = parts@;
            let ghost old_cur = cur@;
            parts.push(cur);
            cur = String::new();
            proof {
                assert(strs_view(parts@).push(cur@) =~~= split_on(s@.take(i as int), d).push(
                    Seq::<char>::empty(),
                ));
            }
        } else {
            let ghost old_cur = cur@;
            push_char(&mut cur, c);
            proof {
                let r = split_on(s@.take(i as int), d);
                assert(r.last() == old_cur);
                assert(strs_view(parts@).push(cur@) =~~= r.update(r.len() - 1, r.last().push(c)));
            }
        }
        i = i + 1;
    }
    proof {
        assert(s@.take(n as int) =~= s@);
    }
    parts.push(cur);
    proof {
        assert(strs_view(parts@) =~~= split_on(s@, d));
    }
    parts
}

/// The pieces joined into one string with `d` between consecutive pieces.
pub fn join_strings(parts: &Vec<String>, d: char) -> (r: String)
    ensures
        r@ == join_on(strs_view(parts@), d),
{
    if parts.len() == 0 {
        return String::new();
    }
    let mut buffer: String = parts[0].clone();
    proof {
        assert(strs_view(parts@).take(1) =~~= seq![parts@[0]@]);
    }
    let mut i: usize = 1;
    while i < parts.len()
        invariant
            1 <= i <= parts@.len(),
            buffer@ == join_on(strs_view(parts@).take(i as int), d),
        decreases parts@.len() - i,
    {
        push_char(&mut buffer, d);
        buffer.append(parts[i].as_str());
        proof {
            lemma_join_on_push(strs_view(parts@).take(i as int), d, parts@[i as int]@);
            assert(strs_view(parts@).take(i as int + 1) =~~= strs_view(parts@).take(
                i as int,
            ).push(parts@[i as int]@));
            assert(buffer@ =~= join_on(strs_view(parts@).take(i as int), d) + seq![d] + parts@[
                i as int
            ]@);
        }
        i = i + 1;
    }
    proof {
        assert(strs_view(parts@).take(parts@.len() as int) =~~= strs_view(parts@));
    }
    buffer
}

fn digit_to_char(d: u8) -> (c: char)
    requires
        d < 10,
    ensures
        c == dec_digit_char(d as nat),
{
    match d {
        0 => '0',
        1 => '1',
        2 => '2',
        3 => '3',
        4 => '4',
        5 => '5',
        6 => '6',
        7 => '7',
        8 => '8',
        _ => '9',
    }
}

fn char_digit(c: char) -> (r: Option<u8>)
    ensures
        r is Some <==> is_dec_digit(c),
        r is Some ==> r->0 < 10 && r->0 as nat == digit_of(c),
{
    match c {
        '0' => Some(0u8),
        '1' => Some(1u8),
        '2' => Some(2u8),
        '3' => Some(3u8),
        '4' => Some(4u8),
        '5' => Some(5u8),
        '6' => Some(6u8),
        '7' => Some(7u8),
        '8' => Some(8u8),
        '9' => Some(9u8),
        _ => None,
    }
}

/// The canonical decimal rendering of `n`.
pub fn to_dec_string(n: u128) -> (r: String)
    ensures
        r@ == dec_digits(n as nat),
    decreases n,
{
    if n < 10 {
        let mut s = String::new();
        push_char(&mut s, digit_to_char(n as u8));
        proof {
            assert(Seq::<char>::empty().push(dec_digit_char(n as nat)) =~= seq![
                dec_digit_char(n as nat),
            ]);
        }
        s
    } else {
        proof {
            assert(n / 10 < n) by (nonlinear_arith)
                requires
                    n >= 10,
            ;
        }
        let mut s = to_dec_string(n / 10);
        push_char(&mut s, digit_to_char((n % 10) as u8));
        s
    }
}

/// The decimal value of the slice, when the whole slice is one or more
/// digits whose value fits the machine word.
pub fn parse_dec(s: &str) -> (r: Option<u128>)
    ensures
        r is Some ==> dec_value(s@) == Some(r->0 as nat),
        r is None ==> (forall|m: nat| m <= u128::MAX ==> dec_value(s@) != Some(m)),
{
    let n: usize = s.unicode_len();
    if n == 0 {
        return None;
    }
    let mut val: u128 = 0;
    let mut i: usize = 0;
    proof {
        assert(s@.take(0) =~= Seq::<char>::empty());
    }
    while i < n
        invariant
            0 <= i <= n,
            n == s@.len(),
            s@.len() >= 1,
            all_dec_digits(s@.take(i as int)),
            val as nat == dec_val_of(s@.take(i as int)),
        decreases n - i,
    {
        let c = s.get_char(i);
        proof {
            assert(s@.take(i as int + 1) =~= s@.take(i as int).push(s@[i as int]));
            lemma_dec_val_of_push(s@.take(i as int), s@[i as int]);
        }
        match char_digit(c) {
            None => {
                proof {
                    assert(!is_dec_digit(s@[i as int]));
                    assert(dec_value(s@) is None);
                }
                return None;
            },
            Some(d) => {
                let dd = d as u128;
                if val > (u128::MAX - dd) / 10 {
                    proof {
                        assert(val * 10 + dd > u128::MAX) by (nonlinear_arith)
                            requires
                                val > (u128::MAX - dd) / 10,
                                dd <= u128::MAX,
                        ;
                        lemma_dec_val_monotone(s@, i as int + 1, s@.len() as int);
                        assert(s@.take(s@.len() as int) =~= s@);
                        assert(dec_val_of(s@) > u128::MAX);
                    }
                    return None;
                }
                proof {
                    assert(val * 10 + dd <= u128::MAX) by (nonlinear_arith)
                        requires
                            val <= (u128::MAX - dd) / 10,
                            dd <= u128::MAX,
                    ;
                }
                val = val * 10 + dd;
            },
        }
        i = i + 1;
    }
    proof {
        assert(s@.take(n as int) =~= s@);
    }
    Some(val)
}

} // verus!
