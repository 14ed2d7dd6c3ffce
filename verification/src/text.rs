//! Reading and writing text, character by character.
//!
//! The spec functions say what the splitting, trimming and number formats
//! of this library mean on sequences of characters; the executable functions beside
//! them compute just that.

use vstd::prelude::*;
use vstd::slice::slice_subrange;

verus! {

/// `String::push` appends one character.
pub assume_specification[ String::push ](s: &mut String, c: char)
    ensures
        final(s)@ == old(s)@.push(c),
;

/// Equality of string slices is equality of their characters.
pub assume_specification[ <str as PartialEq<str>>::eq ](a: &str, b: &str) -> (r: bool)
    ensures
        r == (a@ == b@),
;

/// The characters of a string.
pub fn chars_of(s: &str) -> (r: Vec<char>)
    ensures
        r@ == s@,
{
    let mut out: Vec<char> = Vec::new();
    for c in it: s.chars()
        invariant
            it.seq() == s@,
            out@ == s@.take(it.index()),
    {
        proof {
            assert(s@.take(it.index() + 1) =~= s@.take(it.index()).push(c));
        }
        out.push(c);
    }
    assert(s@.take(s@.len() as int) =~= s@);
    out
}

/// Append all characters of `part`.
pub fn push_chars(out: &mut String, part: &[char])
    ensures
        final(out)@ == old(out)@ + part@,
{
    let ghost start = out@;
    let mut i: usize = 0;
    assert(start + part@.take(0) =~= start);
    while i < part.len()
        invariant
            i <= part@.len(),
            out@ == start + part@.take(i as int),
        decreases part@.len() - i,
    {
        out.push(part[i]);
        i += 1;
        assert(start + part@.take(i as int) =~= (start + part@.take(i - 1)).push(part@[i - 1]));
    }
    assert(part@.take(i as int) =~= part@);
}

/// Append all characters of `part`.
pub fn push_text(out: &mut String, part: &str)
    ensures
        final(out)@ == old(out)@ + part@,
{
    let chars = chars_of(part);
    push_chars(out, chars.as_slice());
}

/// A string of the given characters.
pub fn string_of(chars: &[char]) -> (r: String)
    ensures
        r@ == chars@,
{
    let mut out = String::new();
    push_chars(&mut out, chars);
    assert(Seq::<char>::empty() + chars@ =~= chars@);
    out
}

/// Whether two character runs are the same.
pub fn same_chars(a: &[char], b: &[char]) -> (r: bool)
    ensures
        r == (a@ == b@),
{
    if a.len() != b.len() {
        return false;
    }
    let mut i: usize = 0;
    while i < a.len()
        invariant
            i <= a@.len(),
            a@.len() == b@.len(),
            forall|j: int| 0 <= j < i ==> a@[j] == b@[j],
        decreases a@.len() - i,
    {
        if a[i] != b[i] {
            return false;
        }
        i += 1;
    }
    assert(a@ =~= b@);
    true
}

// ---- finding and splitting ----

/// Where `c` first stands in `s`.
pub open spec fn first_index(s: Seq<char>, c: char) -> Option<int>
    decreases s.len(),
{
    if s.len() == 0 {
        None
    } else if s[0] == c {
        Some(0)
    } else {
        match first_index(s.skip(1), c) {
            Some(i) => Some(i + 1),
            None => None,
        }
    }
}

/// Where `c` last stands in `s`.
pub open spec fn last_index(s: Seq<char>, c: char) -> Option<int>
    decreases s.len(),
{
    if s.len() == 0 {
        None
    } else if s.last() == c {
        Some(s.len() - 1)
    } else {
        last_index(s.drop_last(), c)
    }
}

/// A position with `c` on it and no `c` before it is the first.
pub proof fn lemma_first_index(s: Seq<char>, c: char, i: int)
    requires
        0 <= i < s.len(),
        s[i] == c,
        forall|j: int| 0 <= j < i ==> s[j] != c,
    ensures
        first_index(s, c) == Some(i),
    decreases s.len(),
{
    if i > 0 {
        lemma_first_index(s.skip(1), c, i - 1);
    }
}

/// Where no `c` stands, none is found.
pub proof fn lemma_no_first_index(s: Seq<char>, c: char)
    requires
        forall|j: int| 0 <= j < s.len() ==> s[j] != c,
    ensures
        first_index(s, c) is None,
    decreases s.len(),
{
    if s.len() > 0 {
        lemma_no_first_index(s.skip(1), c);
    }
}

/// What a found first position says.
pub proof fn lemma_first_index_ensures(s: Seq<char>, c: char)
    ensures
        match first_index(s, c) {
            Some(i) => 0 <= i < s.len() && s[i] == c && forall|j: int| 0 <= j < i ==> s[j] != c,
            None => forall|j: int| 0 <= j < s.len() ==> s[j] != c,
        },
    decreases s.len(),
{
    if s.len() > 0 && s[0] != c {
        let rest = s.skip(1);
        lemma_first_index_ensures(rest, c);
        assert forall|j: int| 1 <= j < s.len() implies s[j] == rest[j - 1] by {}
    }
}

/// A position with `c` on it and no `c` after it is the last.
pub proof fn lemma_last_index(s: Seq<char>, c: char, i: int)
    requires
        0 <= i < s.len(),
        s[i] == c,
        forall|j: int| i < j < s.len() ==> s[j] != c,
    ensures
        last_index(s, c) == Some(i),
    decreases s.len(),
{
    if i < s.len() - 1 {
        lemma_last_index(s.drop_last(), c, i);
    }
}

/// Where no `c` stands, none is found.
pub proof fn lemma_no_last_index(s: Seq<char>, c: char)
    requires
        forall|j: int| 0 <= j < s.len() ==> s[j] != c,
    ensures
        last_index(s, c) is None,
    decreases s.len(),
{
    if s.len() > 0 {
        lemma_no_last_index(s.drop_last(), c);
    }
}

/// What a found last position says.
pub proof fn lemma_last_index_ensures(s: Seq<char>, c: char)
    ensures
        match last_index(s, c) {
            Some(i) => 0 <= i < s.len() && s[i] == c && forall|j: int| i < j < s.len() ==> s[j] != c,
            None => forall|j: int| 0 <= j < s.len() ==> s[j] != c,
        },
    decreases s.len(),
{
    if s.len() > 0 && s.last() != c {
        let rest = s.drop_last();
        lemma_last_index_ensures(rest, c);
        assert forall|j: int| 0 <= j < rest.len() implies s[j] == rest[j] by {}
    }
}

/// The text before and after the first `c`.
pub open spec fn split_once(s: Seq<char>, c: char) -> Option<(Seq<char>, Seq<char>)> {
    match first_index(s, c) {
        Some(i) => Some((s.take(i), s.skip(i + 1))),
        None => None,
    }
}

/// The text before and after the last `c`.
pub open spec fn rsplit_once(s: Seq<char>, c: char) -> Option<(Seq<char>, Seq<char>)> {
    match last_index(s, c) {
        Some(i) => Some((s.take(i), s.skip(i + 1))),
        None => None,
    }
}

/// Where `c` first stands in `s`.
pub fn find_first(s: &[char], c: char) -> (r: Option<usize>)
    ensures
        match r {
            Some(i) => i < s@.len() && first_index(s@, c) == Some(i as int),
            None => first_index(s@, c) is None,
        },
{
    let mut i: usize = 0;
    while i < s.len()
        invariant
            i <= s@.len(),
            forall|j: int| 0 <= j < i ==> s@[j] != c,
        decreases s@.len() - i,
    {
        if s[i] == c {
            proof {
                lemma_first_index(s@, c, i as int);
            }
            return Some(i);
        }
        i += 1;
    }
    proof {
        lemma_no_first_index(s@, c);
    }
    None
}

/// Where `c` last stands in `s`.
pub fn find_last(s: &[char], c: char) -> (r: Option<usize>)
    ensures
        match r {
            Some(i) => i < s@.len() && last_index(s@, c) == Some(i as int),
            None => last_index(s@, c) is None,
        },
{
    let mut i: usize = s.len();
    while i > 0
        invariant
            i <= s@.len(),
            forall|j: int| i <= j < s@.len() ==> s@[j] != c,
        decreases i,
    {
        i -= 1;
        if s[i] == c {
            proof {
                lemma_last_index(s@, c, i as int);
            }
            return Some(i);
        }
    }
    proof {
        lemma_no_last_index(s@, c);
    }
    None
}

/// The text before and after the first `c`.
pub fn split_once_at<'a>(s: &'a [char], c: char) -> (r: Option<(&'a [char], &'a [char])>)
    ensures
        match r {
            Some(p) => split_once(s@, c) == Some((p.0@, p.1@)),
            None => split_once(s@, c) is None,
        },
{
    match find_first(s, c) {
        Some(i) => {
            let n: usize = s.len();
            let a = slice_subrange(s, 0, i);
            let b = slice_subrange(s, i + 1, n);
            assert(a@ =~= s@.take(i as int));
            assert(b@ =~= s@.skip(i + 1));
            Some((a, b))
        },
        None => None,
    }
}

/// The text before and after the last `c`.
pub fn rsplit_once_at<'a>(s: &'a [char], c: char) -> (r: Option<(&'a [char], &'a [char])>)
    ensures
        match r {
            Some(p) => rsplit_once(s@, c) == Some((p.0@, p.1@)),
            None => rsplit_once(s@, c) is None,
        },
{
    match find_last(s, c) {
        Some(i) => {
            let n: usize = s.len();
            let a = slice_subrange(s, 0, i);
            let b = slice_subrange(s, i + 1, n);
            assert(a@ =~= s@.take(i as int));
            assert(b@ =~= s@.skip(i + 1));
            Some((a, b))
        },
        None => None,
    }
}

/// What each run of a list of character runs reads.
pub open spec fn texts(runs: Seq<&[char]>) -> Seq<Seq<char>> {
    runs.map_values(|r: &[char]| r@)
}

/// One more run adds its text.
pub proof fn lemma_texts_push(runs: Seq<&[char]>, r: &[char])
    ensures
        texts(runs.push(r)) == texts(runs).push(r@),
{
    assert(texts(runs.push(r)) =~= texts(runs).push(r@));
}

/// Each run is read as it is, at its own place.
pub proof fn runs_are_read_one_by_one(runs: Seq<&[char]>)
    ensures
        texts(runs).len() == runs.len(),
        forall|i: int| 0 <= i < runs.len() ==> #[trigger] texts(runs)[i] == runs[i]@,
{
}

/// Where the first character stands behind a text without it, and what is left on either side.
proof fn lemma_divided(a: Seq<char>, c: char, b: Seq<char>)
    requires
        !a.contains(c),
    ensures
        first_index(a, c) is None,
        first_index(a + seq![c] + b, c) == Some(a.len() as int),
        (a + seq![c] + b).take(a.len() as int) == a,
        (a + seq![c] + b).skip(a.len() as int + 1) == b,
{
    let s = a + seq![c] + b;
    let at = a.len() as int;
    assert(s[at] == c);
    assert(s.take(at) =~= a);
    assert(s.skip(at + 1) =~= b);
    assert forall|j: int| 0 <= j < at implies s[j] != c && a[j] != c by {
        assert(s[j] == a[j]);
        assert(a.contains(a[j]));
    }
    lemma_first_index(s, c, at);
    lemma_no_first_index(a, c);
}

/// A text is divided at the first character, or at the last one, and that character alone is
/// left out; without it there is nothing to divide.
pub proof fn a_division_leaves_one_character_out(a: Seq<char>, c: char, b: Seq<char>)
    ensures
        !a.contains(c) ==> split_once(a + seq![c] + b, c) == Some((a, b)),
        !b.contains(c) ==> rsplit_once(a + seq![c] + b, c) == Some((a, b)),
        !a.contains(c) ==> split_once(a, c) is None && rsplit_once(a, c) is None,
{
    let s = a + seq![c] + b;
    let at = a.len() as int;
    assert(s[at] == c);
    assert(s.take(at) =~= a);
    assert(s.skip(at + 1) =~= b);
    if !a.contains(c) {
        assert forall|j: int| 0 <= j < at implies s[j] != c && a[j] != c by {
            assert(s[j] == a[j]);
            assert(a.contains(a[j]));
        }
        lemma_first_index(s, c, at);
        lemma_no_first_index(a, c);
        lemma_no_last_index(a, c);
    }
    if !b.contains(c) {
        assert forall|j: int| at < j < s.len() implies s[j] != c by {
            assert(s[j] == b[j - at - 1]);
            assert(b.contains(b[j - at - 1]));
        }
        lemma_last_index(s, c, at);
    }
}

/// The texts between the `c`s of `s`: always at least one, and one more than there
/// are `c`s.
pub open spec fn pieces(s: Seq<char>, c: char) -> Seq<Seq<char>>
    decreases s.len(),
{
    match first_index(s, c) {
        Some(i) if 0 <= i < s.len() => seq![s.take(i)] + pieces(s.skip(i + 1), c),
        _ => seq![s],
    }
}

/// The texts between the `c`s of `s`.
pub fn split_at_each<'a>(s: &'a [char], c: char) -> (r: Vec<&'a [char]>)
    ensures
        texts(r@) == pieces(s@, c),
{
    let mut out: Vec<&'a [char]> = Vec::new();
    let mut rest: &'a [char] = s;
    assert(texts(out@) + pieces(rest@, c) =~= pieces(s@, c));
    loop
        invariant
            texts(out@) + pieces(rest@, c) == pieces(s@, c),
        decreases rest@.len(),
    {
        match split_once_at(rest, c) {
            Some((head, tail)) => {
                proof {
                    lemma_first_index_ensures(rest@, c);
                    lemma_texts_push(out@, head);
                    assert(texts(out@.push(head)) + pieces(tail@, c) =~= texts(out@) + pieces(
                        rest@,
                        c,
                    ));
                }
                out.push(head);
                rest = tail;
            },
            None => {
                proof {
                    lemma_texts_push(out@, rest);
                    assert(texts(out@.push(rest)) =~= texts(out@) + pieces(rest@, c));
                }
                out.push(rest);
                return out;
            },
        }
    }
}

/// A text without the character is one piece; one with it is what stands before its first, and
/// then the pieces of what stands behind.
pub proof fn pieces_stand_between(a: Seq<char>, c: char, b: Seq<char>)
    requires
        !a.contains(c),
    ensures
        pieces(a, c) == seq![a],
        pieces(a + seq![c] + b, c) == seq![a] + pieces(b, c),
{
    lemma_divided(a, c, b);
}

// ---- white space ----

/// The characters that Unicode calls white space.
pub open spec fn is_space(c: char) -> bool {
    let u = c as u32;
    ||| 0x09 <= u <= 0x0d
    ||| u == 0x20
    ||| u == 0x85
    ||| u == 0xa0
    ||| u == 0x1680
    ||| 0x2000 <= u <= 0x200a
    ||| u == 0x2028
    ||| u == 0x2029
    ||| u == 0x202f
    ||| u == 0x205f
    ||| u == 0x3000
}

/// Whether Unicode calls `c` white space.
pub fn is_white(c: char) -> (r: bool)
    ensures
        r == is_space(c),
{
    let u: u32 = c as u32;
    (0x09 <= u && u <= 0x0d) || u == 0x20 || u == 0x85 || u == 0xa0 || u == 0x1680 || (0x2000 <= u
        && u <= 0x200a) || u == 0x2028 || u == 0x2029 || u == 0x202f || u == 0x205f || u == 0x3000
}

/// White space is what Unicode calls so, and nothing else.
pub proof fn white_space_is_unicodes(c: char)
    ensures
        is_space(c) <==> seq![
            0x09u32,
            0x0au32,
            0x0bu32,
            0x0cu32,
            0x0du32,
            0x20u32,
            0x85u32,
            0xa0u32,
            0x1680u32,
            0x2000u32,
            0x2001u32,
            0x2002u32,
            0x2003u32,
            0x2004u32,
            0x2005u32,
            0x2006u32,
            0x2007u32,
            0x2008u32,
            0x2009u32,
            0x200au32,
            0x2028u32,
            0x2029u32,
            0x202fu32,
            0x205fu32,
            0x3000u32,
        ].contains(c as u32),
{
    let u = c as u32;
    let points = seq![
        0x09u32,
        0x0au32,
        0x0bu32,
        0x0cu32,
        0x0du32,
        0x20u32,
        0x85u32,
        0xa0u32,
        0x1680u32,
        0x2000u32,
        0x2001u32,
        0x2002u32,
        0x2003u32,
        0x2004u32,
        0x2005u32,
        0x2006u32,
        0x2007u32,
        0x2008u32,
        0x2009u32,
        0x200au32,
        0x2028u32,
        0x2029u32,
        0x202fu32,
        0x205fu32,
        0x3000u32,
    ];
    if is_space(c) {
        let i = if u <= 0x0d {
            u - 0x09
        } else if u == 0x20 {
            5
        } else if u == 0x85 {
            6
        } else if u == 0xa0 {
            7
        } else if u == 0x1680 {
            8
        } else if u <= 0x200a {
            9 + (u - 0x2000)
        } else if u == 0x2028 {
            20
        } else if u == 0x2029 {
            21
        } else if u == 0x202f {
            22
        } else if u == 0x205f {
            23
        } else {
            24
        };
        assert(points[i] == u);
    }
}

/// `s` without the white space at its start.
pub open spec fn trim_start(s: Seq<char>) -> Seq<char>
    decreases s.len(),
{
    if s.len() > 0 && is_space(s[0]) {
        trim_start(s.skip(1))
    } else {
        s
    }
}

/// `s` without the white space at its end.
pub open spec fn trim_end(s: Seq<char>) -> Seq<char>
    decreases s.len(),
{
    if s.len() > 0 && is_space(s.last()) {
        trim_end(s.drop_last())
    } else {
        s
    }
}

/// `s` without the white space around it.
pub open spec fn trimmed(s: Seq<char>) -> Seq<char> {
    trim_end(trim_start(s))
}

/// Leading white space makes no difference to a text without it.
proof fn lemma_leading_space(gap: Seq<char>, s: Seq<char>)
    requires
        forall|i: int| 0 <= i < gap.len() ==> is_space(#[trigger] gap[i]),
    ensures
        trim_start(gap + s) == trim_start(s),
    decreases gap.len(),
{
    if gap.len() > 0 {
        let less = gap.skip(1);
        assert forall|i: int| 0 <= i < less.len() implies is_space(#[trigger] less[i]) by {
            assert(less[i] == gap[i + 1]);
        }
        lemma_leading_space(less, s);
        assert((gap + s).skip(1) =~= less + s);
        assert((gap + s)[0] == gap[0]);
    } else {
        assert(gap + s =~= s);
    }
}

/// Trailing white space makes no difference to a text without it.
proof fn lemma_trailing_space(s: Seq<char>, gap: Seq<char>)
    requires
        forall|i: int| 0 <= i < gap.len() ==> is_space(#[trigger] gap[i]),
    ensures
        trim_end(s + gap) == trim_end(s),
    decreases gap.len(),
{
    if gap.len() > 0 {
        let less = gap.drop_last();
        assert forall|i: int| 0 <= i < less.len() implies is_space(#[trigger] less[i]) by {
            assert(less[i] == gap[i]);
        }
        lemma_trailing_space(s, less);
        assert((s + gap).drop_last() =~= s + less);
        assert((s + gap).last() == gap[gap.len() - 1]);
    } else {
        assert(s + gap =~= s);
    }
}

/// Trimming takes off the white space before and behind a text, and none of the text: what
/// neither starts nor ends with white space stays, whatever it holds inside.
pub proof fn trimming_takes_white_space_off(front: Seq<char>, s: Seq<char>, back: Seq<char>)
    requires
        forall|i: int| 0 <= i < front.len() ==> is_space(#[trigger] front[i]),
        forall|i: int| 0 <= i < back.len() ==> is_space(#[trigger] back[i]),
        s.len() > 0 ==> !is_space(s[0]) && !is_space(s.last()),
    ensures
        trimmed(front + s + back) == s,
{
    assert(front + s + back =~= front + (s + back));
    lemma_leading_space(front, s + back);
    if s.len() > 0 {
        assert((s + back)[0] == s[0]);
        lemma_trailing_space(s, back);
    } else {
        assert(s + back =~= back + s);
        lemma_leading_space(back, s);
    }
}

/// `s` without the white space at its start.
pub fn without_leading<'a>(s: &'a [char]) -> (r: &'a [char])
    ensures
        r@ == trim_start(s@),
        r@.len() <= s@.len(),
{
    let mut i: usize = 0;
    assert(s@.skip(0) =~= s@);
    while i < s.len() && is_white(s[i])
        invariant
            i <= s@.len(),
            trim_start(s@.skip(i as int)) == trim_start(s@),
        decreases s@.len() - i,
    {
        assert(s@.skip(i as int).skip(1) =~= s@.skip(i + 1));
        i += 1;
    }
    let r = slice_subrange(s, i, s.len());
    assert(r@ =~= s@.skip(i as int));
    r
}

/// `s` without the white space around it.
pub fn trim<'a>(s: &'a [char]) -> (r: &'a [char])
    ensures
        r@ == trimmed(s@),
{
    let t = without_leading(s);
    let mut n: usize = t.len();
    assert(t@.take(n as int) =~= t@);
    while n > 0 && is_white(t[n - 1])
        invariant
            n <= t@.len(),
            trim_end(t@.take(n as int)) == trim_end(t@),
        decreases n,
    {
        assert(t@.take(n as int).drop_last() =~= t@.take(n - 1));
        assert(t@.take(n as int).last() == t@[n - 1]);
        n -= 1;
    }
    let r = slice_subrange(t, 0, n);
    assert(r@ =~= t@.take(n as int));
    r
}

/// How many characters stand before the first white space.
pub open spec fn word_len(s: Seq<char>) -> nat
    decreases s.len(),
{
    if s.len() == 0 || is_space(s[0]) {
        0
    } else {
        1 + word_len(s.skip(1))
    }
}

/// A first word is no longer than the text, and ends at white space or its end.
pub proof fn lemma_word_len(s: Seq<char>)
    ensures
        word_len(s) <= s.len(),
        forall|j: int| 0 <= j < word_len(s) ==> !is_space(#[trigger] s[j]),
        word_len(s) < s.len() ==> is_space(s[word_len(s) as int]),
    decreases s.len(),
{
    if s.len() > 0 && !is_space(s[0]) {
        let rest = s.skip(1);
        lemma_word_len(rest);
        assert forall|j: int| 0 <= j < word_len(s) implies !is_space(#[trigger] s[j]) by {
            if j > 0 {
                assert(s[j] == rest[j - 1]);
            }
        }
    }
}

/// A run without white space that ends at white space or the end is the first word.
pub proof fn lemma_word_len_is(s: Seq<char>, n: nat)
    requires
        n <= s.len(),
        forall|j: int| 0 <= j < n ==> !is_space(#[trigger] s[j]),
        n < s.len() ==> is_space(s[n as int]),
    ensures
        word_len(s) == n,
    decreases s.len(),
{
    if n > 0 {
        let rest = s.skip(1);
        assert forall|j: int| 0 <= j < n - 1 implies !is_space(#[trigger] rest[j]) by {
            assert(rest[j] == s[j + 1]);
        }
        lemma_word_len_is(rest, (n - 1) as nat);
    }
}

/// Dropping leading white space leaves no more characters, and none of it in front.
pub proof fn lemma_trim_start(s: Seq<char>)
    ensures
        trim_start(s).len() <= s.len(),
        trim_start(s).len() > 0 ==> !is_space(trim_start(s)[0]),
    decreases s.len(),
{
    if s.len() > 0 && is_space(s[0]) {
        lemma_trim_start(s.skip(1));
    }
}

/// The words of `s`: its longest runs without white space, in order.
pub open spec fn words(s: Seq<char>) -> Seq<Seq<char>>
    decreases s.len(),
    via words_shrink
{
    let t = trim_start(s);
    if t.len() == 0 {
        Seq::empty()
    } else {
        seq![t.take(word_len(t) as int)] + words(t.skip(word_len(t) as int))
    }
}

#[via_fn]
proof fn words_shrink(s: Seq<char>) {
    lemma_trim_start(s);
    let t = trim_start(s);
    lemma_word_len(t);
    if t.len() > 0 {
        assert(word_len(t) == 1 + word_len(t.skip(1)));
    }
}

/// White space alone holds no word. Behind any white space the first word goes on up to the next,
/// and the other words are those of what follows.
pub proof fn words_stand_between_white_space(gap: Seq<char>, word: Seq<char>, rest: Seq<char>)
    requires
        forall|i: int| 0 <= i < gap.len() ==> is_space(#[trigger] gap[i]),
        word.len() > 0,
        forall|i: int| 0 <= i < word.len() ==> !is_space(#[trigger] word[i]),
        rest.len() > 0 ==> is_space(rest[0]),
    ensures
        words(gap) == Seq::<Seq<char>>::empty(),
        words(gap + word + rest) == seq![word] + words(rest),
{
    let t = word + rest;
    lemma_leading_space(gap, Seq::empty());
    assert(gap + Seq::<char>::empty() =~= gap);
    assert(gap + word + rest =~= gap + t);
    lemma_leading_space(gap, t);
    assert(t[0] == word[0]);
    assert(trim_start(t) == t);
    assert forall|j: int| 0 <= j < word.len() implies !is_space(#[trigger] t[j]) by {
        assert(t[j] == word[j]);
    }
    lemma_word_len_is(t, word.len());
    assert(t.take(word.len() as int) =~= word);
    assert(t.skip(word.len() as int) =~= rest);
}

/// The words of `s`, in order.
pub fn split_words<'a>(s: &'a [char]) -> (r: Vec<&'a [char]>)
    ensures
        texts(r@) == words(s@),
{
    let mut out: Vec<&'a [char]> = Vec::new();
    let mut rest: &'a [char] = s;
    assert(texts(out@) + words(rest@) =~= words(s@));
    loop
        invariant
            texts(out@) + words(rest@) == words(s@),
        decreases rest@.len(),
    {
        let t = without_leading(rest);
        proof {
            lemma_trim_start(rest@);
        }
        if t.len() == 0 {
            assert(words(rest@) =~= Seq::empty());
            assert(texts(out@) + words(rest@) =~= texts(out@));
            return out;
        }
        let mut n: usize = 0;
        while n < t.len() && !is_white(t[n])
            invariant
                n <= t@.len(),
                forall|j: int| 0 <= j < n ==> !is_space(#[trigger] t@[j]),
            decreases t@.len() - n,
        {
            n += 1;
        }
        proof {
            lemma_word_len_is(t@, n as nat);
            assert(n > 0);
        }
        let word = slice_subrange(t, 0, n);
        let tail = slice_subrange(t, n, t.len());
        proof {
            assert(word@ =~= t@.take(n as int));
            assert(tail@ =~= t@.skip(n as int));
            lemma_texts_push(out@, word);
            assert(texts(out@.push(word)) + words(tail@) =~= texts(out@) + words(rest@));
        }
        out.push(word);
        rest = tail;
    }
}

// ---- one character around a text ----

/// `s` without the `c`s at its start.
pub open spec fn strip_start(s: Seq<char>, c: char) -> Seq<char>
    decreases s.len(),
{
    if s.len() > 0 && s[0] == c {
        strip_start(s.skip(1), c)
    } else {
        s
    }
}

/// `s` without the `c`s at its end.
pub open spec fn strip_end(s: Seq<char>, c: char) -> Seq<char>
    decreases s.len(),
{
    if s.len() > 0 && s.last() == c {
        strip_end(s.drop_last(), c)
    } else {
        s
    }
}

/// `s` without the `c`s around it.
pub open spec fn stripped(s: Seq<char>, c: char) -> Seq<char> {
    strip_end(strip_start(s, c), c)
}

/// `s` without the `c`s around it.
pub fn strip<'a>(s: &'a [char], c: char) -> (r: &'a [char])
    ensures
        r@ == stripped(s@, c),
{
    let mut i: usize = 0;
    assert(s@.skip(0) =~= s@);
    while i < s.len() && s[i] == c
        invariant
            i <= s@.len(),
            strip_start(s@.skip(i as int), c) == strip_start(s@, c),
        decreases s@.len() - i,
    {
        assert(s@.skip(i as int).skip(1) =~= s@.skip(i + 1));
        i += 1;
    }
    let t = slice_subrange(s, i, s.len());
    assert(t@ =~= s@.skip(i as int));
    let mut n: usize = t.len();
    assert(t@.take(n as int) =~= t@);
    while n > 0 && t[n - 1] == c
        invariant
            n <= t@.len(),
            strip_end(t@.take(n as int), c) == strip_end(t@, c),
        decreases n,
    {
        assert(t@.take(n as int).drop_last() =~= t@.take(n - 1));
        assert(t@.take(n as int).last() == t@[n - 1]);
        n -= 1;
    }
    let r = slice_subrange(t, 0, n);
    assert(r@ =~= t@.take(n as int));
    r
}

/// Stripping takes off what stands before and behind a text that neither starts nor ends so.
pub proof fn stripping_takes_the_ends_off(s: Seq<char>, c: char, before: nat, behind: nat)
    requires
        s.len() > 0,
        s[0] != c,
        s.last() != c,
    ensures
        stripped(Seq::new(before, |i: int| c) + s + Seq::new(behind, |i: int| c), c) == s,
    decreases before + behind,
{
    let front = Seq::new(before, |i: int| c);
    let back = Seq::new(behind, |i: int| c);
    let all = front + s + back;
    if before > 0 {
        let less = (before - 1) as nat;
        stripping_takes_the_ends_off(s, c, less, behind);
        assert(all.skip(1) =~= Seq::new(less, |i: int| c) + s + back);
        assert(all[0] == c);
    } else if behind > 0 {
        let less = (behind - 1) as nat;
        stripping_takes_the_ends_off(s, c, 0, less);
        let shorter = front + s + Seq::new(less, |i: int| c);
        assert(all.drop_last() =~= shorter);
        assert(all[0] == s[0] && shorter[0] == s[0]);
        assert(all.last() == c);
        assert(strip_start(all, c) == all);
        assert(strip_start(shorter, c) == shorter);
    } else {
        assert(all =~= s);
    }
}

/// Of the character alone, however often it stands there, stripping leaves nothing.
pub proof fn stripping_leaves_none_of_the_character_alone(c: char, n: nat)
    ensures
        stripped(Seq::new(n, |i: int| c), c) == Seq::<char>::empty(),
    decreases n,
{
    let all = Seq::new(n, |i: int| c);
    if n > 0 {
        stripping_leaves_none_of_the_character_alone(c, (n - 1) as nat);
        assert(all.skip(1) =~= Seq::new((n - 1) as nat, |i: int| c));
    } else {
        assert(all =~= Seq::<char>::empty());
    }
}

/// Whether `s` starts with `prefix`.
pub fn starts_with(s: &[char], prefix: &[char]) -> (r: bool)
    ensures
        r == prefix@.is_prefix_of(s@),
{
    if prefix.len() > s.len() {
        return false;
    }
    let n: usize = prefix.len();
    let front = slice_subrange(s, 0, n);
    assert(prefix@.is_prefix_of(s@) <==> prefix@ =~= front@);
    same_chars(front, prefix)
}

/// What an optional text reads.
pub open spec fn opt_text(o: Option<String>) -> Option<Seq<char>> {
    match o {
        Some(s) => Some(s@),
        None => None,
    }
}

/// A copy of an optional text.
pub fn copy_opt(o: &Option<String>) -> (r: Option<String>)
    ensures
        opt_text(r) == opt_text(*o),
        r is Some <==> o is Some,
        *o matches Some(s) ==> (r matches Some(t) ==> t@ == s@),
{
    match o {
        Some(s) => Some(s.clone()),
        None => None,
    }
}

// ---- lines ----

/// A line without the carriage return of its line ending.
pub open spec fn without_cr(s: Seq<char>) -> Seq<char> {
    if s.len() > 0 && s.last() == '\r' {
        s.drop_last()
    } else {
        s
    }
}

/// The lines of `s`. A line ends in a line feed, or in a carriage return and a line
/// feed; the last one need not end in either.
pub open spec fn lines(s: Seq<char>) -> Seq<Seq<char>>
    decreases s.len(),
{
    if s.len() == 0 {
        Seq::empty()
    } else {
        match first_index(s, '\n') {
            Some(i) if 0 <= i < s.len() => seq![without_cr(s.take(i))] + lines(s.skip(i + 1)),
            _ => seq![s],
        }
    }
}

/// A line ends at its line feed, or at a carriage return right before that, and the lines of what
/// follows come behind it. Text behind the last line feed is a line of its own where there is any,
/// and ends as it is written.
pub proof fn a_line_ends_at_its_line_feed(a: Seq<char>, b: Seq<char>)
    requires
        !a.contains('\n'),
    ensures
        lines(Seq::empty()) == Seq::<Seq<char>>::empty(),
        a.len() > 0 ==> lines(a) == seq![a],
        a.len() == 0 || a.last() != '\r' ==> lines(a + seq!['\n'] + b) == seq![a] + lines(b),
        lines(a + seq!['\r', '\n'] + b) == seq![a] + lines(b),
{
    lemma_divided(a, '\n', b);
    let cr = a.push('\r');
    assert forall|i: int| 0 <= i < cr.len() implies cr[i] != '\n' by {
        if i < a.len() {
            assert(a.contains(a[i]));
        }
    }
    lemma_divided(cr, '\n', b);
    assert(a + seq!['\r', '\n'] + b =~= cr + seq!['\n'] + b);
    assert(cr.drop_last() =~= a);
}

/// The lines of `s`, in order.
pub fn split_lines<'a>(s: &'a [char]) -> (r: Vec<&'a [char]>)
    ensures
        texts(r@) == lines(s@),
{
    let mut out: Vec<&'a [char]> = Vec::new();
    let mut rest: &'a [char] = s;
    assert(texts(out@) + lines(rest@) =~= lines(s@));
    while rest.len() > 0
        invariant
            texts(out@) + lines(rest@) == lines(s@),
        decreases rest@.len(),
    {
        match split_once_at(rest, '\n') {
            Some((head, tail)) => {
                let n: usize = head.len();
                let line: &'a [char] = if n > 0 && head[n - 1] == '\r' {
                    slice_subrange(head, 0, n - 1)
                } else {
                    head
                };
                proof {
                    lemma_first_index_ensures(rest@, '\n');
                    assert(line@ =~= without_cr(head@));
                    lemma_texts_push(out@, line);
                    assert(texts(out@.push(line)) + lines(tail@) =~= texts(out@) + lines(rest@));
                }
                out.push(line);
                rest = tail;
            },
            None => {
                proof {
                    lemma_texts_push(out@, rest);
                    assert(texts(out@.push(rest)) =~= texts(out@) + lines(rest@));
                }
                out.push(rest);
                return out;
            },
        }
    }
    assert(texts(out@) + lines(rest@) =~= texts(out@));
    out
}

// ---- numbers ----

/// Whether `c` is one of the ten ASCII digits.
pub open spec fn is_digit(c: char) -> bool {
    '0' as u32 <= c as u32 <= '9' as u32
}

/// Whether all of `s` are ASCII digits.
pub open spec fn all_digits(s: Seq<char>) -> bool {
    forall|i: int| 0 <= i < s.len() ==> is_digit(#[trigger] s[i])
}

/// The number that a run of digits reads in base ten.
pub open spec fn digits_value(s: Seq<char>) -> nat
    decreases s.len(),
{
    if s.len() == 0 {
        0
    } else {
        digits_value(s.drop_last()) * 10 + (s.last() as u32 - '0' as u32) as nat
    }
}

/// The unsigned 64-bit number that `s` reads: digits, with at most one plus sign in
/// front, whose value fits.
pub open spec fn number(s: Seq<char>) -> Option<u64> {
    let digits = if s.len() > 0 && s[0] == '+' {
        s.skip(1)
    } else {
        s
    };
    if digits.len() > 0 && all_digits(digits) && digits_value(digits) <= u64::MAX {
        Some(digits_value(digits) as u64)
    } else {
        None
    }
}

/// More digits make no smaller number.
proof fn lemma_digits_value_grows(s: Seq<char>, n: int)
    requires
        all_digits(s),
        0 <= n <= s.len(),
    ensures
        digits_value(s.take(n)) <= digits_value(s),
    decreases s.len() - n,
{
    if n < s.len() {
        lemma_digits_value_grows(s, n + 1);
        assert(s.take(n + 1).drop_last() =~= s.take(n));
        assert(is_digit(s[n]));
    } else {
        assert(s.take(n) =~= s);
    }
}

/// The unsigned 64-bit number that `s` reads.
pub fn parse_number(s: &[char]) -> (r: Option<u64>)
    ensures
        r == number(s@),
{
    let digits: &[char] = if s.len() > 0 && s[0] == '+' {
        let d = slice_subrange(s, 1, s.len());
        assert(d@ =~= s@.skip(1));
        d
    } else {
        s
    };
    if digits.len() == 0 {
        return None;
    }
    let mut value: u64 = 0;
    let mut i: usize = 0;
    while i < digits.len()
        invariant
            i <= digits@.len(),
            forall|j: int| 0 <= j < i ==> is_digit(#[trigger] digits@[j]),
            value == digits_value(digits@.take(i as int)),
            digits@.len() > 0,
            digits@ == (if s@.len() > 0 && s@[0] == '+' {
                s@.skip(1)
            } else {
                s@
            }),
        decreases digits@.len() - i,
    {
        let u: u32 = digits[i] as u32;
        if u < '0' as u32 || u > '9' as u32 {
            assert(!is_digit(digits@[i as int]));
            return None;
        }
        let d: u64 = (u - '0' as u32) as u64;
        proof {
            assert(digits@.take(i + 1).drop_last() =~= digits@.take(i as int));
            assert(digits_value(digits@.take(i + 1)) == value * 10 + d);
        }
        if value > (u64::MAX - d) / 10 {
            proof {
                assert(value * 10 + d > u64::MAX);
                if all_digits(digits@) {
                    lemma_digits_value_grows(digits@, i + 1);
                }
            }
            return None;
        }
        value = value * 10 + d;
        i += 1;
    }
    assert(digits@.take(i as int) =~= digits@);
    Some(value)
}

/// The digit that stands for `d`, in base sixteen with small letters.
pub open spec fn digit(d: int) -> char {
    if d < 10 {
        ('0' as u32 + d) as char
    } else {
        ('a' as u32 + d - 10) as char
    }
}

/// The digit that stands for `d`, in base sixteen with small letters.
pub fn digit_char(d: u8) -> (c: char)
    requires
        d < 16,
    ensures
        c == digit(d as int),
{
    if d < 10 {
        (48 + d) as char
    } else {
        (97 + (d - 10)) as char
    }
}

/// `n` written in base ten.
pub open spec fn decimal(n: nat) -> Seq<char>
    decreases n,
{
    if n < 10 {
        seq![digit(n as int)]
    } else {
        decimal(n / 10).push(digit((n % 10) as int))
    }
}

/// `n` written in base ten.
pub fn decimal_chars(n: u64) -> (r: Vec<char>)
    ensures
        r@ == decimal(n as nat),
    decreases n,
{
    if n < 10 {
        let mut out: Vec<char> = Vec::new();
        out.push(digit_char(n as u8));
        assert(out@ =~= seq![digit(n as int)]);
        out
    } else {
        let mut out = decimal_chars(n / 10);
        out.push(digit_char((n % 10) as u8));
        out
    }
}

/// Append `n`, written in base ten.
pub fn push_decimal(out: &mut String, n: u64)
    ensures
        final(out)@ == old(out)@ + decimal(n as nat),
{
    let chars = decimal_chars(n);
    push_chars(out, chars.as_slice());
}

/// A number written in base ten is made of digits and reads as itself.
pub proof fn decimal_reads_back(n: nat)
    ensures
        decimal(n).len() > 0,
        all_digits(decimal(n)),
        digits_value(decimal(n)) == n,
    decreases n,
{
    if n < 10 {
        assert(digits_value(decimal(n).drop_last()) == 0);
        assert(decimal(n).last() == digit(n as int));
    } else {
        decimal_reads_back(n / 10);
        let front = decimal(n / 10);
        let whole = decimal(n);
        assert(whole.drop_last() =~= front);
        assert(whole.last() == digit((n % 10) as int));
        assert forall|i: int| 0 <= i < whole.len() implies is_digit(#[trigger] whole[i]) by {
            if i < front.len() {
                assert(whole[i] == front[i]);
            }
        }
    }
}

/// Parsing what was written gives the number back.
pub proof fn number_of_decimal(n: u64)
    ensures
        number(decimal(n as nat)) == Some(n),
{
    decimal_reads_back(n as nat);
    let s = decimal(n as nat);
    assert(is_digit(s[0]));
}

/// A number written in base ten holds no character that is not a digit.
pub proof fn decimal_holds_no(n: nat, c: char)
    requires
        !is_digit(c),
    ensures
        forall|i: int| 0 <= i < decimal(n).len() ==> decimal(n)[i] != c,
{
    decimal_reads_back(n);
}

/// A digit in base sixteen is the character of the alphabet at its place.
pub proof fn a_digit_stands_for_its_place(d: int)
    requires
        0 <= d < 16,
    ensures
        digit(d) == "0123456789abcdef"@[d],
{
    reveal_strlit("0123456789abcdef");
}

/// A number is written without zeros in front.
pub proof fn decimal_starts_with_no_zero(n: nat)
    requires
        n > 0,
    ensures
        decimal(n)[0] != '0',
    decreases n,
{
    if n >= 10 {
        decimal_starts_with_no_zero(n / 10);
        decimal_reads_back(n / 10);
    }
}

/// What stands for no number: nothing at all, a plus sign alone, and any text with a character
/// that is no digit, but for one plus sign in front.
pub proof fn what_reads_as_no_number(s: Seq<char>, i: int)
    ensures
        number(Seq::empty()) is None,
        number(seq!['+']) is None,
        0 <= i < s.len() && !(s[i] == '+' && i == 0) && !(48 <= s[i] as u32 <= 57) ==> number(s) is None,
{
    assert(seq!['+'].skip(1) =~= Seq::<char>::empty());
    if 0 <= i < s.len() && !(s[i] == '+' && i == 0) && !(48 <= s[i] as u32 <= 57) {
        assert(!is_digit(s[i]));
        if s[0] == '+' {
            assert(s.skip(1)[i - 1] == s[i]);
            assert(!all_digits(s.skip(1)));
        } else {
            assert(!all_digits(s));
        }
    }
}

/// A number that is too large has no text. A plus sign in front of the digits changes nothing, nor
/// does a zero.
pub proof fn what_changes_no_number(s: Seq<char>, n: nat)
    ensures
        n > u64::MAX ==> number(decimal(n)) is None,
        s.len() > 0 && s[0] != '+' ==> number(seq!['+'] + s) == number(s),
        s.len() > 0 && s[0] != '+' ==> number(seq!['0'] + s) == number(s),
{
    decimal_reads_back(n);
    assert(is_digit(decimal(n)[0]));
    if s.len() > 0 && s[0] != '+' {
        assert((seq!['+'] + s).skip(1) =~= s);
        lemma_leading_zero(s);
    }
}

/// Each further digit tells ten times as much and itself, up to the largest number that there is.
pub proof fn a_further_digit_tells_ten_times_as_much(s: Seq<char>, d: nat)
    requires
        d < 10,
        number(s) is Some,
    ensures
        number(s.push("0123456789"@[d as int])) == if number(s)->Some_0 * 10 + d <= u64::MAX {
            Some((number(s)->Some_0 * 10 + d) as u64)
        } else {
            None
        },
{
    reveal_strlit("0123456789");
    let plus = s[0] == '+';
    let digits = if plus {
        s.skip(1)
    } else {
        s
    };
    let c = "0123456789"@[d as int];
    let more = digits.push(c);
    assert(s.push(c)[0] == s[0]);
    if plus {
        assert(s.push(c).skip(1) =~= more);
    }
    assert(more.drop_last() =~= digits);
    assert(c as u32 - '0' as u32 == d);
    assert(all_digits(more)) by {
        assert forall|j: int| 0 <= j < more.len() implies is_digit(#[trigger] more[j]) by {
            if j < digits.len() {
                assert(more[j] == digits[j]);
            }
        }
    }
}

/// A zero in front tells nothing.
proof fn lemma_leading_zero(s: Seq<char>)
    ensures
        digits_value(seq!['0'] + s) == digits_value(s),
        all_digits(seq!['0'] + s) <==> all_digits(s),
    decreases s.len(),
{
    let more = seq!['0'] + s;
    assert forall|j: int| 0 <= j < s.len() implies s[j] == more[j + 1] by {}
    if all_digits(more) {
        assert forall|j: int| 0 <= j < s.len() implies is_digit(#[trigger] s[j]) by {
            assert(is_digit(more[j + 1]));
        }
    }
    if all_digits(s) {
        assert forall|j: int| 0 <= j < more.len() implies is_digit(#[trigger] more[j]) by {
            if j > 0 {
                assert(is_digit(s[j - 1]));
            }
        }
    }
    if s.len() > 0 {
        lemma_leading_zero(s.drop_last());
        assert(more.drop_last() =~= seq!['0'] + s.drop_last());
    } else {
        assert(more.drop_last() =~= s);
    }
}

} // verus!
