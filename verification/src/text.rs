//! Text as a sequence of characters: cutting, trimming, joining and ordering.
use vstd::prelude::*;
use vstd::string::StrSliceExecFns;
use vstd::string::StringExecFns;

verus! {

/// The texts of a list of strings.
pub open spec fn texts(list: Seq<String>) -> Seq<Seq<char>> {
    list.map_values(|s: String| s@)
}

/// The texts of a list of string slices.
pub open spec fn slice_texts(list: Seq<&str>) -> Seq<Seq<char>> {
    list.map_values(|s: &str| s@)
}

/// The index of the first `c` in `s`, or the length of `s` if there is none.
pub open spec fn first_index(s: Seq<char>, c: char) -> nat
    decreases s.len(),
{
    if s.len() == 0 || s[0] == c {
        0
    } else {
        1 + first_index(s.drop_first(), c)
    }
}

/// The index of the last `c` in `s`, or -1 if there is none.
pub open spec fn last_index(s: Seq<char>, c: char) -> int
    decreases s.len(),
{
    if s.len() == 0 {
        -1
    } else if s.last() == c {
        s.len() - 1
    } else {
        last_index(s.drop_last(), c)
    }
}

/// What stands before and after the first `c` of `s`.
pub open spec fn cut_first(s: Seq<char>, c: char) -> Option<(Seq<char>, Seq<char>)> {
    let k = first_index(s, c) as int;
    if k < s.len() {
        Some((s.take(k), s.skip(k + 1)))
    } else {
        None
    }
}

/// What stands before and after the last `c` of `s`.
pub open spec fn cut_last(s: Seq<char>, c: char) -> Option<(Seq<char>, Seq<char>)> {
    let k = last_index(s, c);
    if k >= 0 {
        Some((s.take(k), s.skip(k + 1)))
    } else {
        None
    }
}

/// The pieces of `s` between its occurrences of `c`.
pub open spec fn pieces(s: Seq<char>, c: char) -> Seq<Seq<char>>
    decreases s.len(),
{
    let k = first_index(s, c) as int;
    if k < s.len() {
        seq![s.take(k)] + pieces(s.skip(k + 1), c)
    } else {
        seq![s]
    }
}

/// The texts of `parts`, in order, with `c` between each two.
pub open spec fn joined_by(parts: Seq<Seq<char>>, c: char) -> Seq<char>
    decreases parts.len(),
{
    if parts.len() == 0 {
        Seq::empty()
    } else if parts.len() == 1 {
        parts[0]
    } else {
        parts[0] + seq![c] + joined_by(parts.drop_first(), c)
    }
}

/// `s` without one carriage return at its end.
pub open spec fn without_return(s: Seq<char>) -> Seq<char> {
    if s.len() > 0 && s.last() == '\r' {
        s.drop_last()
    } else {
        s
    }
}

/// The lines of `s`: each ends at a newline, or at a carriage return and a newline; the last line
/// may lack its newline.
pub open spec fn lines_of(s: Seq<char>) -> Seq<Seq<char>>
    decreases s.len(),
{
    let k = first_index(s, '\n') as int;
    if s.len() == 0 {
        Seq::empty()
    } else if k < s.len() {
        seq![without_return(s.take(k))] + lines_of(s.skip(k + 1))
    } else {
        seq![s]
    }
}

/// Whether `c` has the Unicode property `White_Space`.
pub open spec fn is_white(c: char) -> bool {
    ||| '\u{9}' <= c <= '\u{d}'
    ||| c == '\u{20}'
    ||| c == '\u{85}'
    ||| c == '\u{a0}'
    ||| c == '\u{1680}'
    ||| '\u{2000}' <= c <= '\u{200a}'
    ||| c == '\u{2028}'
    ||| c == '\u{2029}'
    ||| c == '\u{202f}'
    ||| c == '\u{205f}'
    ||| c == '\u{3000}'
}

/// `s` without the white space at its start.
pub open spec fn trim_start(s: Seq<char>) -> Seq<char>
    decreases s.len(),
{
    if s.len() > 0 && is_white(s[0]) {
        trim_start(s.drop_first())
    } else {
        s
    }
}

/// `s` without the white space at its end.
pub open spec fn trim_end(s: Seq<char>) -> Seq<char>
    decreases s.len(),
{
    if s.len() > 0 && is_white(s.last()) {
        trim_end(s.drop_last())
    } else {
        s
    }
}

/// `s` without the white space at its start and its end.
pub open spec fn trimmed(s: Seq<char>) -> Seq<char> {
    trim_end(trim_start(s))
}

/// `c` as an upper-case letter, if it is a letter of ASCII.
pub open spec fn upper_char(c: char) -> char {
    if 'a' <= c <= 'z' {
        (c as int - 32) as char
    } else {
        c
    }
}

/// `s` with its ASCII letters in upper case.
pub open spec fn upper(s: Seq<char>) -> Seq<char> {
    s.map_values(|c: char| upper_char(c))
}

/// Whether `a` stands before `b` in the order of their code points.
pub open spec fn before(a: Seq<char>, b: Seq<char>) -> bool
    decreases a.len(),
{
    if b.len() == 0 {
        false
    } else if a.len() == 0 {
        true
    } else if a[0] == b[0] {
        before(a.drop_first(), b.drop_first())
    } else {
        a[0] < b[0]
    }
}

/// How two texts stand to each other.
#[derive(Clone, Copy, PartialEq, Eq, Structural, Debug)]
pub enum Place {
    Before,
    Same,
    After,
}

pub proof fn lemma_first_index(s: Seq<char>, c: char)
    ensures
        first_index(s, c) <= s.len(),
        first_index(s, c) < s.len() ==> s[first_index(s, c) as int] == c,
        forall|i: int| 0 <= i < first_index(s, c) ==> #[trigger] s[i] != c,
    decreases s.len(),
{
    if s.len() > 0 && s[0] != c {
        let t = s.drop_first();
        lemma_first_index(t, c);
        assert forall|i: int| 0 <= i < first_index(s, c) implies #[trigger] s[i] != c by {
            if i > 0 {
                assert(s[i] == t[i - 1]);
            }
        }
    }
}

pub proof fn lemma_first_index_is(s: Seq<char>, c: char, k: int)
    requires
        0 <= k <= s.len(),
        k < s.len() ==> s[k] == c,
        forall|i: int| 0 <= i < k ==> #[trigger] s[i] != c,
    ensures
        first_index(s, c) == k,
{
    lemma_first_index(s, c);
    if first_index(s, c) < k {
        assert(s[first_index(s, c) as int] != c);
    } else if k < first_index(s, c) {
        assert(s[k] != c);
    }
}

pub proof fn lemma_last_index(s: Seq<char>, c: char)
    ensures
        -1 <= last_index(s, c) < s.len(),
        last_index(s, c) >= 0 ==> s[last_index(s, c)] == c,
        forall|i: int| last_index(s, c) < i < s.len() ==> #[trigger] s[i] != c,
    decreases s.len(),
{
    if s.len() > 0 && s.last() != c {
        let t = s.drop_last();
        lemma_last_index(t, c);
        assert forall|i: int| last_index(s, c) < i < s.len() implies #[trigger] s[i] != c by {
            if i < t.len() {
                assert(s[i] == t[i]);
            }
        }
    }
}

pub proof fn lemma_last_index_is(s: Seq<char>, c: char, k: int)
    requires
        -1 <= k < s.len(),
        k >= 0 ==> s[k] == c,
        forall|i: int| k < i < s.len() ==> #[trigger] s[i] != c,
    ensures
        last_index(s, c) == k,
{
    lemma_last_index(s, c);
    if last_index(s, c) < k {
        assert(s[k] != c);
    } else if k < last_index(s, c) {
        assert(s[last_index(s, c)] != c);
    }
}

/// A text is cut at the separator that was put between two others, if the first holds none.
pub proof fn lemma_cut_first_of_join(a: Seq<char>, c: char, b: Seq<char>)
    requires
        !a.contains(c),
    ensures
        cut_first(a + seq![c] + b, c) == Some((a, b)),
        first_index(a + seq![c] + b, c) == a.len(),
{
    let s = a + seq![c] + b;
    assert forall|i: int| 0 <= i < a.len() implies #[trigger] s[i] != c by {
        assert(a[i] == s[i]);
        assert(a.contains(a[i]));
    }
    lemma_first_index_is(s, c, a.len() as int);
    assert(s.take(a.len() as int) =~= a);
    assert(s.skip(a.len() as int + 1) =~= b);
}

/// A text is cut at the separator that was put between two others, if the second holds none.
pub proof fn lemma_cut_last_of_join(a: Seq<char>, c: char, b: Seq<char>)
    requires
        !b.contains(c),
    ensures
        cut_last(a + seq![c] + b, c) == Some((a, b)),
{
    let s = a + seq![c] + b;
    assert forall|i: int| a.len() < i < s.len() implies #[trigger] s[i] != c by {
        assert(b[i - a.len() - 1] == s[i]);
        assert(b.contains(b[i - a.len() - 1]));
    }
    lemma_last_index_is(s, c, a.len() as int);
    assert(s.take(a.len() as int) =~= a);
    assert(s.skip(a.len() as int + 1) =~= b);
}

/// Joined texts that hold no separator are the pieces of what was joined.
pub proof fn lemma_pieces_of_join(parts: Seq<Seq<char>>, c: char)
    requires
        parts.len() > 0,
        forall|i: int| 0 <= i < parts.len() ==> !(#[trigger] parts[i]).contains(c),
    ensures
        pieces(joined_by(parts, c), c) == parts,
    decreases parts.len(),
{
    let s = joined_by(parts, c);
    if parts.len() == 1 {
        lemma_first_index(s, c);
        if first_index(s, c) < s.len() {
            assert(parts[0].contains(c));
        }
        assert(seq![s] =~= parts);
    } else {
        let rest = parts.drop_first();
        assert forall|i: int| 0 <= i < rest.len() implies !(#[trigger] rest[i]).contains(c) by {
            assert(rest[i] == parts[i + 1]);
        }
        lemma_pieces_of_join(rest, c);
        lemma_cut_first_of_join(parts[0], c, joined_by(rest, c));
        assert(seq![parts[0]] + rest =~= parts);
    }
}

/// One more part goes behind a separator.
pub proof fn lemma_join_push(parts: Seq<Seq<char>>, c: char, part: Seq<char>)
    requires
        parts.len() > 0,
    ensures
        joined_by(parts.push(part), c) == joined_by(parts, c) + seq![c] + part,
    decreases parts.len(),
{
    let more = parts.push(part);
    assert(more.drop_first() =~= parts.drop_first().push(part));
    if parts.len() == 1 {
        assert(more.drop_first() =~= seq![part]);
        assert(joined_by(more.drop_first(), c) == part);
    } else {
        lemma_join_push(parts.drop_first(), c, part);
    }
    assert(more[0] == parts[0]);
    assert(joined_by(more, c) =~= joined_by(parts, c) + seq![c] + part);
}

/// A line that holds no newline and does not end in a carriage return is the first of the lines.
pub proof fn lemma_lines_of_line(a: Seq<char>, b: Seq<char>)
    requires
        !a.contains('\n'),
        a.len() > 0 ==> a.last() != '\r',
    ensures
        lines_of(a + seq!['\n'] + b) == seq![a] + lines_of(b),
{
    lemma_cut_first_of_join(a, '\n', b);
}

/// A text that neither starts nor ends with white space is not changed by trimming.
pub proof fn lemma_trim_keeps(s: Seq<char>)
    requires
        s.len() > 0 ==> !is_white(s[0]) && !is_white(s.last()),
    ensures
        trimmed(s) == s,
{
}

proof fn lemma_trim_start_is(s: Seq<char>, k: int)
    requires
        0 <= k <= s.len(),
        forall|i: int| 0 <= i < k ==> is_white(#[trigger] s[i]),
        k < s.len() ==> !is_white(s[k]),
    ensures
        trim_start(s) == s.skip(k),
    decreases k,
{
    if k > 0 {
        let t = s.drop_first();
        assert(is_white(s[0]));
        assert forall|i: int| 0 <= i < k - 1 implies is_white(#[trigger] t[i]) by {
            assert(t[i] == s[i + 1]);
        }
        lemma_trim_start_is(t, k - 1);
        assert(t.skip(k - 1) =~= s.skip(k));
    } else {
        assert(s.skip(0) =~= s);
    }
}

proof fn lemma_trim_end_is(s: Seq<char>, k: int)
    requires
        0 <= k <= s.len(),
        forall|i: int| k <= i < s.len() ==> is_white(#[trigger] s[i]),
        k > 0 ==> !is_white(s[k - 1]),
    ensures
        trim_end(s) == s.take(k),
    decreases s.len(),
{
    if k < s.len() {
        let t = s.drop_last();
        assert(is_white(s[s.len() - 1]));
        assert forall|i: int| k <= i < t.len() implies is_white(#[trigger] t[i]) by {
            assert(t[i] == s[i]);
        }
        lemma_trim_end_is(t, k);
        assert(t.take(k) =~= s.take(k));
    } else {
        assert(s.take(k) =~= s);
    }
}

/// No text stands before itself.
pub proof fn lemma_before_is_strict(a: Seq<char>)
    ensures
        !before(a, a),
    decreases a.len(),
{
    if a.len() > 0 {
        lemma_before_is_strict(a.drop_first());
    }
}

/// What stands before a text stands before all that follow it.
pub proof fn lemma_before_is_transitive(a: Seq<char>, b: Seq<char>, c: Seq<char>)
    requires
        before(a, b),
        before(b, c),
    ensures
        before(a, c),
    decreases a.len(),
{
    if a.len() > 0 && a[0] == b[0] && b[0] == c[0] {
        lemma_before_is_transitive(a.drop_first(), b.drop_first(), c.drop_first());
    }
}

proof fn lemma_before_skips(a: Seq<char>, b: Seq<char>, k: int)
    requires
        0 <= k <= a.len(),
        k <= b.len(),
        a.take(k) == b.take(k),
    ensures
        before(a, b) == before(a.skip(k), b.skip(k)),
    decreases k,
{
    if k > 0 {
        assert(a[0] == a.take(k)[0]);
        assert(b[0] == b.take(k)[0]);
        assert(a.drop_first().take(k - 1) =~= a.take(k).drop_first());
        assert(b.drop_first().take(k - 1) =~= b.take(k).drop_first());
        lemma_before_skips(a.drop_first(), b.drop_first(), k - 1);
        assert(a.drop_first().skip(k - 1) =~= a.skip(k));
        assert(b.drop_first().skip(k - 1) =~= b.skip(k));
    } else {
        assert(a.skip(0) =~= a);
        assert(b.skip(0) =~= b);
    }
}

/// The characters of `s`.
pub fn chars_of(s: &str) -> (v: Vec<char>)
    ensures
        v@ == s@,
{
    let mut v: Vec<char> = Vec::new();
    for c in it: s.chars()
        invariant
            v@ == it.seq().take(it.index() as int),
            it.seq() == s@,
    {
        v.push(c);
    }
    v
}

/// Two texts, one behind the other.
pub fn joined(a: &str, b: &str) -> (r: String)
    ensures
        r@ == a@ + b@,
{
    let mut r = String::from_str(a);
    r.append(b);
    r
}

/// Whether `s` starts with `prefix`.
pub fn starts_with(s: &str, prefix: &str) -> (r: bool)
    ensures
        r == prefix@.is_prefix_of(s@),
{
    let n = prefix.unicode_len();
    if s.unicode_len() < n {
        return false;
    }
    let head = s.substring_char(0, n);
    assert(prefix@.is_prefix_of(s@) ==> head@ =~= prefix@);
    same(head, prefix)
}

/// Whether two texts are the same.
pub fn same(a: &str, b: &str) -> (r: bool)
    ensures
        r == (a@ == b@),
{
    let v = chars_of(a);
    let w = chars_of(b);
    if v.len() != w.len() {
        return false;
    }
    let mut i: usize = 0;
    while i < v.len()
        invariant
            i <= v.len(),
            v@ == a@,
            w@ == b@,
            v.len() == w.len(),
            forall|j: int| 0 <= j < i ==> #[trigger] a@[j] == b@[j],
        decreases v.len() - i,
    {
        if v[i] != w[i] {
            assert(a@[i as int] != b@[i as int]);
            return false;
        }
        i = i + 1;
    }
    assert(a@ =~= b@);
    true
}

/// What stands before and after the first `c` of `s`.
pub fn split_once<'a>(s: &'a str, c: char) -> (r: Option<(&'a str, &'a str)>)
    ensures
        match r {
            Some((head, tail)) => cut_first(s@, c) == Some((head@, tail@)),
            None => cut_first(s@, c) is None,
        },
{
    let v = chars_of(s);
    let mut i: usize = 0;
    while i < v.len()
        invariant
            i <= v.len(),
            v@ == s@,
            forall|j: int| 0 <= j < i ==> #[trigger] s@[j] != c,
        decreases v.len() - i,
    {
        if v[i] == c {
            proof {
                lemma_first_index_is(s@, c, i as int);
            }
            let head = s.substring_char(0, i);
            let tail = s.substring_char(i + 1, v.len());
            assert(head@ =~= s@.take(i as int));
            assert(tail@ =~= s@.skip(i + 1));
            return Some((head, tail));
        }
        i = i + 1;
    }
    proof {
        lemma_first_index_is(s@, c, i as int);
    }
    None
}

/// What stands before and after the last `c` of `s`.
pub fn rsplit_once<'a>(s: &'a str, c: char) -> (r: Option<(&'a str, &'a str)>)
    ensures
        match r {
            Some((head, tail)) => cut_last(s@, c) == Some((head@, tail@)),
            None => cut_last(s@, c) is None,
        },
{
    let v = chars_of(s);
    let mut i: usize = v.len();
    while i > 0
        invariant
            i <= v.len(),
            v@ == s@,
            forall|j: int| i <= j < v.len() ==> #[trigger] s@[j] != c,
        decreases i,
    {
        i = i - 1;
        if v[i] == c {
            proof {
                lemma_last_index_is(s@, c, i as int);
            }
            let head = s.substring_char(0, i);
            let tail = s.substring_char(i + 1, v.len());
            assert(head@ =~= s@.take(i as int));
            assert(tail@ =~= s@.skip(i + 1));
            return Some((head, tail));
        }
    }
    proof {
        lemma_last_index_is(s@, c, -1);
    }
    None
}

/// The pieces of `s` between its occurrences of `c`.
pub fn split<'a>(s: &'a str, c: char) -> (r: Vec<&'a str>)
    ensures
        slice_texts(r@) == pieces(s@, c),
{
    let mut r: Vec<&'a str> = Vec::new();
    let mut rest: &'a str = s;
    loop
        invariant_except_break
            slice_texts(r@) + pieces(rest@, c) == pieces(s@, c),
        ensures
            slice_texts(r@) == pieces(s@, c),
        decreases rest@.len(),
    {
        proof {
            lemma_first_index(rest@, c);
        }
        match split_once(rest, c) {
            Some((head, tail)) => {
                let ghost before_push = r@;
                r.push(head);
                assert(slice_texts(r@) =~= slice_texts(before_push).push(head@));
                assert(slice_texts(r@) + pieces(tail@, c) =~= slice_texts(before_push) + (
                seq![head@] + pieces(tail@, c)));
                rest = tail;
            },
            None => {
                let ghost before_push = r@;
                r.push(rest);
                assert(slice_texts(r@) =~= slice_texts(before_push) + seq![rest@]);
                break ;
            },
        }
    }
    r
}

/// The lines of `s`.
pub fn lines<'a>(s: &'a str) -> (r: Vec<&'a str>)
    ensures
        slice_texts(r@) == lines_of(s@),
{
    let mut r: Vec<&'a str> = Vec::new();
    let mut rest: &'a str = s;
    assert(slice_texts(r@) =~= Seq::<Seq<char>>::empty());
    while !rest.is_empty()
        invariant
            slice_texts(r@) + lines_of(rest@) == lines_of(s@),
        decreases rest@.len(),
    {
        proof {
            lemma_first_index(rest@, '\n');
        }
        let ghost before_push = r@;
        let ghost rest_before = rest@;
        match split_once(rest, '\n') {
            Some((head, tail)) => {
                let line = chomp(head);
                r.push(line);
                rest = tail;
                assert(slice_texts(r@) =~= slice_texts(before_push).push(line@));
                assert(slice_texts(r@) + lines_of(tail@) =~= slice_texts(before_push) + (
                seq![line@] + lines_of(tail@)));
            },
            None => {
                r.push(rest);
                rest = rest.substring_char(0, 0);
                assert(slice_texts(r@) =~= slice_texts(before_push) + seq![rest_before]);
                assert(slice_texts(r@) + lines_of(rest@) =~= slice_texts(r@));
            },
        }
    }
    assert(slice_texts(r@) + lines_of(rest@) =~= slice_texts(r@));
    r
}

/// `s` without one carriage return at its end.
fn chomp<'a>(s: &'a str) -> (r: &'a str)
    ensures
        r@ == without_return(s@),
{
    let n = s.unicode_len();
    if n > 0 && s.get_char(n - 1) == '\r' {
        s.substring_char(0, n - 1)
    } else {
        s
    }
}

/// Whether `c` is white space.
pub fn is_whitespace(c: char) -> (r: bool)
    ensures
        r == is_white(c),
{
    (c >= '\u{9}' && c <= '\u{d}') || c == '\u{20}' || c == '\u{85}' || c == '\u{a0}' || c
        == '\u{1680}' || (c >= '\u{2000}' && c <= '\u{200a}') || c == '\u{2028}' || c == '\u{2029}'
        || c == '\u{202f}' || c == '\u{205f}' || c == '\u{3000}'
}

/// `s` without the white space at its start and its end.
pub fn trim<'a>(s: &'a str) -> (r: &'a str)
    ensures
        r@ == trimmed(s@),
{
    let v = chars_of(s);
    let mut i: usize = 0;
    while i < v.len() && is_whitespace(v[i])
        invariant
            i <= v.len(),
            v@ == s@,
            forall|k: int| 0 <= k < i ==> is_white(#[trigger] s@[k]),
        decreases v.len() - i,
    {
        i = i + 1;
    }
    let mut j: usize = v.len();
    while j > i && is_whitespace(v[j - 1])
        invariant
            i <= j <= v.len(),
            v@ == s@,
            forall|k: int| j <= k < v.len() ==> is_white(#[trigger] s@[k]),
        decreases j,
    {
        j = j - 1;
    }
    proof {
        lemma_trim_start_is(s@, i as int);
        let t = s@.skip(i as int);
        assert forall|k: int| j - i <= k < t.len() implies is_white(#[trigger] t[k]) by {
            assert(t[k] == s@[k + i]);
        }
        lemma_trim_end_is(t, j - i);
        assert(t.take(j - i) =~= s@.subrange(i as int, j as int));
    }
    s.substring_char(i, j)
}

/// `s` with its ASCII letters in upper case.
pub fn uppercase(s: &str) -> (r: String)
    ensures
        r@ == upper(s@),
{
    let v = chars_of(s);
    let mut r = String::new();
    let mut i: usize = 0;
    while i < v.len()
        invariant
            i <= v.len(),
            v@ == s@,
            r@ == upper(s@.take(i as int)),
        decreases v.len() - i,
    {
        let c = v[i];
        assert(upper(s@.take(i + 1)) =~= upper(s@.take(i as int)).push(upper_char(c)));
        if c >= 'a' && c <= 'z' {
            r.push((c as u8 - 32) as char);
        } else {
            r.push(c);
        }
        i = i + 1;
    }
    assert(s@.take(i as int) =~= s@);
    r
}

/// How `a` stands to `b` in the order of their code points.
pub fn place(a: &str, b: &str) -> (r: Place)
    ensures
        r == Place::Before <==> before(a@, b@),
        r == Place::Same <==> a@ == b@,
        r == Place::After <==> before(b@, a@),
{
    let v = chars_of(a);
    let w = chars_of(b);
    proof {
        lemma_before_is_strict(a@);
        lemma_before_is_strict(b@);
        if before(a@, b@) && before(b@, a@) {
            lemma_before_is_transitive(a@, b@, a@);
        }
    }
    let mut i: usize = 0;
    while i < v.len() && i < w.len()
        invariant
            i <= v.len(),
            i <= w.len(),
            v@ == a@,
            w@ == b@,
            a@.take(i as int) == b@.take(i as int),
            !(before(a@, b@) && before(b@, a@)),
            !before(a@, a@),
            !before(b@, b@),
        decreases v.len() - i,
    {
        proof {
            lemma_before_skips(a@, b@, i as int);
            lemma_before_skips(b@, a@, i as int);
        }
        let c = v[i];
        let d = w[i];
        if c < d {
            return Place::Before;
        }
        if d < c {
            return Place::After;
        }
        assert(a@.take(i + 1) =~= a@.take(i as int).push(c));
        assert(b@.take(i + 1) =~= b@.take(i as int).push(d));
        i = i + 1;
    }
    proof {
        lemma_before_skips(a@, b@, i as int);
        lemma_before_skips(b@, a@, i as int);
    }
    if i < w.len() {
        Place::Before
    } else if i < v.len() {
        Place::After
    } else {
        assert(a@.take(i as int) =~= a@);
        assert(b@.take(i as int) =~= b@);
        Place::Same
    }
}

proof fn lemma_trim_start_behind_white(a: Seq<char>, s: Seq<char>)
    requires
        forall|i: int| 0 <= i < a.len() ==> is_white(#[trigger] a[i]),
    ensures
        trim_start(a + s) == trim_start(s),
    decreases a.len(),
{
    if a.len() == 0 {
        assert(a + s =~= s);
    } else {
        assert((a + s)[0] == a[0]);
        assert(is_white(a[0]));
        assert((a + s).drop_first() =~= a.drop_first() + s);
        assert forall|i: int| 0 <= i < a.drop_first().len() implies is_white(
            #[trigger] a.drop_first()[i],
        ) by {
            assert(a.drop_first()[i] == a[i + 1]);
        }
        lemma_trim_start_behind_white(a.drop_first(), s);
    }
}

proof fn lemma_trim_end_before_white(s: Seq<char>, b: Seq<char>)
    requires
        forall|i: int| 0 <= i < b.len() ==> is_white(#[trigger] b[i]),
    ensures
        trim_end(s + b) == trim_end(s),
    decreases b.len(),
{
    if b.len() == 0 {
        assert(s + b =~= s);
    } else {
        assert((s + b).last() == b[b.len() - 1]);
        assert((s + b).drop_last() =~= s + b.drop_last());
        assert forall|i: int| 0 <= i < b.drop_last().len() implies is_white(
            #[trigger] b.drop_last()[i],
        ) by {
            assert(b.drop_last()[i] == b[i]);
        }
        lemma_trim_end_before_white(s, b.drop_last());
    }
}

proof fn lemma_trim_start_before(s: Seq<char>, b: Seq<char>)
    ensures
        trim_start(s).len() > 0 ==> trim_start(s + b) == trim_start(s) + b,
        trim_start(s).len() == 0 ==> trim_start(s + b) == trim_start(b),
    decreases s.len(),
{
    if s.len() == 0 {
        assert(s + b =~= b);
    } else {
        assert((s + b)[0] == s[0]);
        if is_white(s[0]) {
            assert((s + b).drop_first() =~= s.drop_first() + b);
            lemma_trim_start_before(s.drop_first(), b);
        }
    }
}

/// White space around a text is of no account, and what is left neither starts nor ends with any.
pub proof fn law_trimming(a: Seq<char>, s: Seq<char>, b: Seq<char>)
    requires
        forall|i: int| 0 <= i < a.len() ==> is_white(#[trigger] a[i]),
        forall|i: int| 0 <= i < b.len() ==> is_white(#[trigger] b[i]),
    ensures
        trimmed(a + s + b) == trimmed(s),
        s.len() > 0 && !is_white(s[0]) && !is_white(s.last()) ==> trimmed(a + s + b) == s,
        s.len() == 0 ==> trimmed(a + s + b).len() == 0,
{
    assert(a + s + b =~= a + (s + b));
    lemma_trim_start_behind_white(a, s + b);
    lemma_trim_start_before(s, b);
    lemma_trim_end_before_white(trim_start(s), b);
    if trim_start(s).len() == 0 {
        assert(b + Seq::<char>::empty() =~= b);
        lemma_trim_start_behind_white(b, Seq::empty());
    }
}

/// A text is cut at its first separator: what stands before holds none, and nothing is lost.
pub proof fn law_cut_at_the_first(s: Seq<char>, c: char)
    ensures
        match cut_first(s, c) {
            Some((a, b)) => s == a + seq![c] + b && !a.contains(c),
            None => !s.contains(c),
        },
{
    lemma_first_index(s, c);
    match cut_first(s, c) {
        Some((a, b)) => {
            assert(s =~= a + seq![c] + b);
        },
        None => {},
    }
}

/// A text is cut at its last separator: what stands behind holds none, and nothing is lost.
pub proof fn law_cut_at_the_last(s: Seq<char>, c: char)
    ensures
        match cut_last(s, c) {
            Some((a, b)) => s == a + seq![c] + b && !b.contains(c),
            None => !s.contains(c),
        },
{
    lemma_last_index(s, c);
    match cut_last(s, c) {
        Some((a, b)) => {
            assert(s =~= a + seq![c] + b);
        },
        None => {},
    }
}

/// The pieces of a text hold no separator, and with separators between them they are that text.
pub proof fn law_pieces_make_the_text(s: Seq<char>, c: char)
    ensures
        pieces(s, c).len() > 0,
        joined_by(pieces(s, c), c) == s,
        forall|i: int| 0 <= i < pieces(s, c).len() ==> !(#[trigger] pieces(s, c)[i]).contains(c),
    decreases s.len(),
{
    law_cut_at_the_first(s, c);
    let all = pieces(s, c);
    match cut_first(s, c) {
        Some((a, b)) => {
            law_pieces_make_the_text(b, c);
            assert(all.drop_first() =~= pieces(b, c));
            assert forall|i: int| 0 <= i < all.len() implies !(#[trigger] all[i]).contains(c) by {
                if i > 0 {
                    assert(all[i] == pieces(b, c)[i - 1]);
                }
            }
        },
        None => {},
    }
}

/// A text that ends at a line end, which is a newline or a carriage return and a newline, is the
/// first of the lines; the last line needs no line end.
pub proof fn law_lines(line: Seq<char>, rest: Seq<char>)
    requires
        !line.contains('\n'),
    ensures
        line.len() == 0 || line.last() != '\r' ==> lines_of(line + seq!['\n'] + rest) == seq![line]
            + lines_of(rest),
        lines_of(line + seq!['\r', '\n'] + rest) == seq![line] + lines_of(rest),
        line.len() > 0 ==> lines_of(line) == seq![line],
        lines_of(Seq::empty()) == Seq::<Seq<char>>::empty(),
{
    lemma_first_index(line, '\n');
    if line.len() == 0 || line.last() != '\r' {
        lemma_lines_of_line(line, rest);
    }
    let returned = line.push('\r');
    if returned.contains('\n') {
        let i = choose|i: int| 0 <= i < returned.len() && returned[i] == '\n';
        assert(line[i] == '\n');
    }
    lemma_cut_first_of_join(returned, '\n', rest);
    assert(line + seq!['\r', '\n'] + rest =~= returned + seq!['\n'] + rest);
    assert(returned.drop_last() =~= line);
}

/// Upper case changes the letters `a` to `z` to `A` to `Z`, and nothing else.
pub proof fn law_upper_case(s: Seq<char>, i: int)
    requires
        0 <= i < s.len(),
    ensures
        upper(s).len() == s.len(),
        'a' <= s[i] <= 'z' ==> upper(s)[i] as int - 'A' as int == s[i] as int - 'a' as int,
        !('a' <= s[i] <= 'z') ==> upper(s)[i] == s[i],
{
}

/// Texts are ordered as by their characters, one after the other: a text stands before each that it
/// begins, and otherwise the first characters that differ decide.
pub proof fn law_order_of_texts(common: Seq<char>, a: Seq<char>, b: Seq<char>)
    requires
        a.len() > 0 && b.len() > 0 ==> a[0] != b[0],
    ensures
        before(common + a, common + b) <==> b.len() > 0 && (a.len() == 0 || a[0] < b[0]),
{
    let k = common.len() as int;
    assert((common + a).take(k) =~= common);
    assert((common + b).take(k) =~= common);
    assert((common + a).skip(k) =~= a);
    assert((common + b).skip(k) =~= b);
    lemma_before_skips(common + a, common + b, k);
}

/// Whether `s` ends with `tail`.
pub open spec fn ends_with(s: Seq<char>, tail: Seq<char>) -> bool {
    tail.len() <= s.len() && s.skip(s.len() - tail.len()) == tail
}

/// What is put behind a text is what it ends with.
pub proof fn lemma_ends_with(a: Seq<char>, tail: Seq<char>)
    ensures
        ends_with(a + tail, tail),
{
    assert((a + tail).skip(a.len() as int) =~= tail);
}

} // verus!
