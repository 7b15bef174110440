//! Character-level helpers shared by the parsers of this crate.
//!
//! Text is handled as a sequence of `char`s. Each executable helper works on a
//! slice of characters and is specified by a function on `Seq<char>`.

use vstd::prelude::*;
use vstd::slice::slice_subrange;

verus! {

/// The characters that carry the Unicode `White_Space` property.
pub open spec fn is_space(c: char) -> bool {
    let n = c as u32;
    ||| 0x09 <= n <= 0x0d
    ||| n == 0x20
    ||| n == 0x85
    ||| n == 0xa0
    ||| n == 0x1680
    ||| 0x2000 <= n <= 0x200a
    ||| n == 0x2028
    ||| n == 0x2029
    ||| n == 0x202f
    ||| n == 0x205f
    ||| n == 0x3000
}

/// A text is blank when it holds nothing but white space; the empty text is blank.
pub open spec fn is_blank(s: Seq<char>) -> bool {
    forall|i: int| 0 <= i < s.len() ==> is_space(#[trigger] s[i])
}

/// Position of the first `c` in `s`, or `s.len()` when `s` holds no `c`.
pub open spec fn first_index(s: Seq<char>, c: char) -> int
    decreases s.len(),
{
    if s.len() == 0 || s[0] == c {
        0
    } else {
        1 + first_index(s.drop_first(), c)
    }
}

/// Position of the last `c` in `s`, or `-1` when `s` holds no `c`.
pub open spec fn last_index(s: Seq<char>, c: char) -> int
    decreases s.len(),
{
    if s.len() == 0 {
        -1
    } else if s.last() == c {
        s.len() - 1
    } else {
        last_index(s.drop_last(), c)
    }
}

/// What follows the first `c` of `s`; nothing where `s` holds no `c`.
pub open spec fn after_first(s: Seq<char>, c: char) -> Seq<char> {
    let k = first_index(s, c);
    if 0 <= k < s.len() {
        s.skip(k + 1)
    } else {
        Seq::empty()
    }
}

/// `s` without the `c`s that it begins with.
pub open spec fn without_leading(s: Seq<char>, c: char) -> Seq<char>
    decreases s.len(),
{
    if s.len() > 0 && s[0] == c {
        without_leading(s.drop_first(), c)
    } else {
        s
    }
}

/// `pat` occurs in `s` as a contiguous run of characters.
pub open spec fn contains(s: Seq<char>, pat: Seq<char>) -> bool {
    exists|i: int| occurs_at(s, pat, i)
}

/// `pat` occurs in `s` at position `i`.
pub open spec fn occurs_at(s: Seq<char>, pat: Seq<char>, i: int) -> bool {
    0 <= i && i + pat.len() <= s.len() && s.subrange(i, i + pat.len()) == pat
}

/// `s` without its leading white space.
pub open spec fn trim_start(s: Seq<char>) -> Seq<char>
    decreases s.len(),
{
    if s.len() > 0 && is_space(s[0]) {
        trim_start(s.drop_first())
    } else {
        s
    }
}

/// `s` without its trailing white space.
pub open spec fn trim_end(s: Seq<char>) -> Seq<char>
    decreases s.len(),
{
    if s.len() > 0 && is_space(s.last()) {
        trim_end(s.drop_last())
    } else {
        s
    }
}

/// `s` without leading and trailing white space.
pub open spec fn trim(s: Seq<char>) -> Seq<char> {
    trim_end(trim_start(s))
}

/// The lines of a text. A line ends at a line feed or at the end of the text;
/// the line feed belongs to no line, and a text that ends in a line feed has no
/// empty last line.
pub open spec fn lines(s: Seq<char>) -> Seq<Seq<char>>
    decreases s.len(),
{
    let k = first_index(s, '\n');
    if s.len() == 0 {
        Seq::empty()
    } else if 0 <= k < s.len() {
        seq![s.take(k)] + lines(s.skip(k + 1))
    } else {
        seq![s]
    }
}

/// The text whose lines are `ls`: each line, followed by a line feed.
pub open spec fn joined(ls: Seq<Seq<char>>) -> Seq<char>
    decreases ls.len(),
{
    if ls.len() == 0 {
        Seq::empty()
    } else {
        ls[0] + seq!['\n'] + joined(ls.drop_first())
    }
}

/// No line of `ls` holds a line feed.
pub open spec fn single_lines(ls: Seq<Seq<char>>) -> bool {
    forall|i: int| 0 <= i < ls.len() ==> !(#[trigger] ls[i]).contains('\n')
}

/// `s` moved to the right in a field of `width` characters: spaces are put
/// before it until it is that wide. A longer text stays as it is.
pub open spec fn padded(s: Seq<char>, width: nat) -> Seq<char> {
    if s.len() >= width {
        s
    } else {
        Seq::new((width - s.len()) as nat, |i: int| ' ') + s
    }
}

/// The file that `path` names has the extension `ext`: its name, which is what
/// follows the last `/`, ends in a `.` and `ext`, with something before the dot.
pub open spec fn extension_is(path: Seq<char>, ext: Seq<char>) -> bool {
    let name = path.skip(last_index(path, '/') + 1);
    let dot = last_index(name, '.');
    dot > 0 && name.skip(dot + 1) == ext
}

/// The views of a list of character slices.
pub open spec fn slice_views(v: Seq<&[char]>) -> Seq<Seq<char>> {
    v.map_values(|l: &[char]| l@)
}

/// The views of a list of strings.
pub open spec fn string_views(v: Seq<String>) -> Seq<Seq<char>> {
    v.map_values(|s: String| s@)
}

/// `first_index` is the least position that holds `c`, and the length where there is none.
pub proof fn lemma_first_index(s: Seq<char>, c: char)
    ensures
        0 <= first_index(s, c) <= s.len(),
        forall|i: int| 0 <= i < first_index(s, c) ==> s[i] != c,
        first_index(s, c) < s.len() ==> s[first_index(s, c)] == c,
    decreases s.len(),
{
    if s.len() == 0 || s[0] == c {
    } else {
        let t = s.drop_first();
        lemma_first_index(t, c);
        assert forall|i: int| 0 <= i < first_index(s, c) implies s[i] != c by {
            if i > 0 {
                assert(s[i] == t[i - 1]);
            }
        }
        if first_index(s, c) < s.len() {
            assert(s[first_index(s, c)] == t[first_index(t, c)]);
        }
    }
}

/// A position with the properties of `first_index` is `first_index`.
pub proof fn lemma_first_index_is(s: Seq<char>, c: char, k: int)
    requires
        0 <= k <= s.len(),
        forall|i: int| 0 <= i < k ==> s[i] != c,
        k < s.len() ==> s[k] == c,
    ensures
        first_index(s, c) == k,
{
    lemma_first_index(s, c);
}

/// `last_index` is the greatest position that holds `c`, and `-1` where there is none.
pub proof fn lemma_last_index(s: Seq<char>, c: char)
    ensures
        -1 <= last_index(s, c) < s.len(),
        forall|i: int| last_index(s, c) < i < s.len() ==> s[i] != c,
        0 <= last_index(s, c) ==> s[last_index(s, c)] == c,
    decreases s.len(),
{
    if s.len() == 0 || s.last() == c {
    } else {
        let t = s.drop_last();
        lemma_last_index(t, c);
        assert forall|i: int| last_index(s, c) < i < s.len() implies s[i] != c by {
            if i < s.len() - 1 {
                assert(s[i] == t[i]);
            }
        }
    }
}

/// A position with the properties of `last_index` is `last_index`.
pub proof fn lemma_last_index_is(s: Seq<char>, c: char, k: int)
    requires
        -1 <= k < s.len(),
        forall|i: int| k < i < s.len() ==> s[i] != c,
        0 <= k ==> s[k] == c,
    ensures
        last_index(s, c) == k,
{
    lemma_last_index(s, c);
}

/// What follows the first `c` of a text that begins with a run without `c`
/// and a `c` is the rest of the text.
pub proof fn lemma_after_first(head: Seq<char>, c: char, rest: Seq<char>)
    requires
        !head.contains(c),
    ensures
        after_first(head + seq![c] + rest, c) == rest,
{
    let s = head + seq![c] + rest;
    assert forall|i: int| 0 <= i < head.len() implies s[i] != c by {
        assert(s[i] == head[i]);
    }
    lemma_first_index_is(s, c, head.len() as int);
    assert(s.skip(head.len() as int + 1) =~= rest);
}

/// A text without `c` has nothing after its first `c`.
pub proof fn lemma_after_none(s: Seq<char>, c: char)
    requires
        !s.contains(c),
    ensures
        after_first(s, c) == Seq::<char>::empty(),
{
    lemma_first_index(s, c);
}

/// Taking the leading `c`s from `n` of them and a text that does not begin
/// with `c` leaves that text.
pub proof fn lemma_without_leading(n: nat, c: char, rest: Seq<char>)
    requires
        rest.len() == 0 || rest[0] != c,
    ensures
        without_leading(Seq::new(n, |i: int| c) + rest, c) == rest,
    decreases n,
{
    let s = Seq::new(n, |i: int| c) + rest;
    if n == 0 {
        assert(s =~= rest);
    } else {
        assert(s.drop_first() =~= Seq::new((n - 1) as nat, |i: int| c) + rest);
        lemma_without_leading((n - 1) as nat, c, rest);
    }
}

/// A text that begins with a line and its line feed has that line first.
pub proof fn lemma_lines_first(a: Seq<char>, b: Seq<char>)
    requires
        !a.contains('\n'),
    ensures
        lines(a + seq!['\n'] + b) == seq![a] + lines(b),
{
    let s = a + seq!['\n'] + b;
    assert forall|i: int| 0 <= i < a.len() implies s[i] != '\n' by {
        assert(s[i] == a[i]);
    }
    lemma_first_index_is(s, '\n', a.len() as int);
    assert(s.take(a.len() as int) =~= a);
    assert(s.skip(a.len() as int + 1) =~= b);
}

/// One more line adds its characters and a line feed to the text.
pub proof fn lemma_joined_push(ls: Seq<Seq<char>>, l: Seq<char>)
    ensures
        joined(ls.push(l)) == joined(ls) + l + seq!['\n'],
    decreases ls.len(),
{
    if ls.len() == 0 {
        assert(ls.push(l).drop_first() =~= ls);
        assert(joined(ls) =~= Seq::<char>::empty());
        assert(joined(ls.push(l)) =~= joined(ls) + l + seq!['\n']);
    } else {
        lemma_joined_push(ls.drop_first(), l);
        assert(ls.push(l).drop_first() =~= ls.drop_first().push(l));
        assert(joined(ls.push(l)) =~= joined(ls) + l + seq!['\n']);
    }
}

/// The lines of the text made of `ls` are `ls`, where no line holds a line feed.
pub proof fn lemma_lines_joined(ls: Seq<Seq<char>>)
    requires
        single_lines(ls),
    ensures
        lines(joined(ls)) == ls,
    decreases ls.len(),
{
    if ls.len() == 0 {
        assert(lines(joined(ls)) =~= ls);
    } else {
        let rest = ls.drop_first();
        assert forall|i: int| 0 <= i < rest.len() implies !(#[trigger] rest[i]).contains(
            '\n',
        ) by {
            assert(rest[i] == ls[i + 1]);
        }
        lemma_lines_joined(rest);
        lemma_lines_first(ls[0], joined(rest));
        assert(seq![ls[0]] + rest =~= ls);
    }
}

/// Tells whether `c` is white space.
pub fn is_whitespace(c: char) -> (b: bool)
    ensures
        b == is_space(c),
{
    let n: u32 = c as u32;
    (0x09 <= n && n <= 0x0d) || n == 0x20 || n == 0x85 || n == 0xa0 || n == 0x1680 || (0x2000 <= n
        && n <= 0x200a) || n == 0x2028 || n == 0x2029 || n == 0x202f || n == 0x205f || n == 0x3000
}

/// The characters of a string, in order.
pub fn chars_of(s: &str) -> (v: Vec<char>)
    ensures
        v@ == s@,
{
    let mut v: Vec<char> = Vec::new();
    for c in it: s.chars()
        invariant
            it.seq() == s@,
            v@ == s@.take(it.index()),
    {
        v.push(c);
    }
    assert(v@ == s@);
    v
}

/// `String::from_iter` over a slice of characters: the string made of these
/// characters in this order.
#[verifier::external_body]
pub(crate) fn string_of(chars: &[char]) -> (s: String)
    ensures
        s@ == chars@,
{
    String::from_iter(chars)
}

/// Appends the characters `s` to `out`.
pub fn append(out: &mut Vec<char>, s: &[char])
    ensures
        final(out)@ == old(out)@ + s@,
{
    let mut i: usize = 0;
    assert(out@ =~= old(out)@ + s@.take(0));
    while i < s.len()
        invariant
            i <= s.len(),
            out@ == old(out)@ + s@.take(i as int),
        decreases s.len() - i,
    {
        out.push(s[i]);
        i += 1;
        assert(out@ =~= old(out)@ + s@.take(i as int));
    }
    assert(s@.take(i as int) =~= s@);
}

/// Appends the characters of the string `s` to `out`.
pub fn append_str(out: &mut Vec<char>, s: &str)
    ensures
        final(out)@ == old(out)@ + s@,
{
    let chars = chars_of(s);
    append(out, chars.as_slice());
}

/// Appends `s` to `out`, moved to the right in a field of `width` characters.
pub fn append_padded(out: &mut Vec<char>, s: &[char], width: usize)
    ensures
        final(out)@ == old(out)@ + padded(s@, width as nat),
{
    let mut n: usize = s.len();
    assert(out@ =~= old(out)@ + Seq::new((n - s.len()) as nat, |i: int| ' '));
    while n < width
        invariant
            s.len() <= n,
            s.len() < width ==> n <= width,
            s.len() >= width ==> n == s.len(),
            out@ == old(out)@ + Seq::new((n - s.len()) as nat, |i: int| ' '),
        decreases width - n,
    {
        out.push(' ');
        n += 1;
        assert(out@ =~= old(out)@ + Seq::new((n - s.len()) as nat, |i: int| ' '));
    }
    append(out, s);
    assert(out@ =~= old(out)@ + padded(s@, width as nat));
}

/// Tells whether `s` holds nothing but white space.
pub fn blank(s: &[char]) -> (b: bool)
    ensures
        b == is_blank(s@),
{
    let mut i: usize = 0;
    while i < s.len()
        invariant
            i <= s.len(),
            forall|j: int| 0 <= j < i ==> is_space(#[trigger] s@[j]),
        decreases s.len() - i,
    {
        if !is_whitespace(s[i]) {
            return false;
        }
        i += 1;
    }
    true
}

/// Finds the first `c` in `s`; the length of `s` when there is none.
pub fn find(s: &[char], c: char) -> (k: usize)
    ensures
        k == first_index(s@, c),
        k <= s.len(),
{
    let mut i: usize = 0;
    while i < s.len() && s[i] != c
        invariant
            i <= s.len(),
            forall|j: int| 0 <= j < i ==> s@[j] != c,
        decreases s.len() - i,
    {
        i += 1;
    }
    proof {
        lemma_first_index_is(s@, c, i as int);
    }
    i
}

/// Finds the last `c` in `s`.
pub fn rfind(s: &[char], c: char) -> (r: Option<usize>)
    ensures
        match r {
            Some(k) => k == last_index(s@, c) && k < s.len(),
            None => last_index(s@, c) == -1,
        },
{
    let mut i: usize = s.len();
    while i > 0 && s[i - 1] != c
        invariant
            i <= s.len(),
            forall|j: int| i <= j < s.len() ==> s@[j] != c,
        decreases i,
    {
        i -= 1;
    }
    proof {
        lemma_last_index_is(s@, c, i as int - 1);
    }
    if i == 0 {
        None
    } else {
        Some(i - 1)
    }
}

/// What follows the first `c` of `s`; nothing where `s` holds no `c`.
pub fn rest_after(s: &[char], c: char) -> (r: &[char])
    ensures
        r@ == after_first(s@, c),
{
    let k = find(s, c);
    if k < s.len() {
        slice_subrange(s, k + 1, s.len())
    } else {
        let r = slice_subrange(s, s.len(), s.len());
        assert(r@ =~= Seq::<char>::empty());
        r
    }
}

/// Takes the `c`s from the beginning of `s`.
pub fn strip_leading(s: &[char], c: char) -> (r: &[char])
    ensures
        r@ == without_leading(s@, c),
{
    let mut a: usize = 0;
    assert(s@.skip(0) =~= s@);
    while a < s.len() && s[a] == c
        invariant
            a <= s.len(),
            without_leading(s@.skip(a as int), c) == without_leading(s@, c),
        decreases s.len() - a,
    {
        assert(s@.skip(a as int).drop_first() =~= s@.skip(a + 1));
        a += 1;
    }
    let r = slice_subrange(s, a, s.len());
    assert(r@ =~= s@.skip(a as int));
    r
}

/// Tells whether `c` occurs in `s`.
pub fn has_char(s: &[char], c: char) -> (b: bool)
    ensures
        b == s@.contains(c),
{
    let k = find(s, c);
    proof {
        lemma_first_index(s@, c);
    }
    k < s.len()
}

/// Tells whether `s` begins with `pat`.
pub fn starts_with(s: &[char], pat: &[char]) -> (b: bool)
    ensures
        b == pat@.is_prefix_of(s@),
{
    if pat.len() > s.len() {
        return false;
    }
    let mut i: usize = 0;
    while i < pat.len()
        invariant
            i <= pat.len() <= s.len(),
            forall|j: int| 0 <= j < i ==> s@[j] == pat@[j],
        decreases pat.len() - i,
    {
        if s[i] != pat[i] {
            assert(s@.subrange(0, pat@.len() as int)[i as int] == s@[i as int]);
            return false;
        }
        i += 1;
    }
    assert(s@.subrange(0, pat@.len() as int) =~= pat@);
    true
}

/// Tells whether two texts are the same.
pub fn same(a: &[char], b: &[char]) -> (r: bool)
    ensures
        r == (a@ == b@),
{
    if a.len() != b.len() {
        return false;
    }
    let r = starts_with(a, b);
    assert(a@.subrange(0, a@.len() as int) =~= a@);
    r
}

/// Tells whether `pat` occurs in `s`.
pub fn contains_text(s: &[char], pat: &[char]) -> (b: bool)
    ensures
        b == contains(s@, pat@),
{
    if pat.len() > s.len() {
        return false;
    }
    let last: usize = s.len() - pat.len();
    let mut i: usize = 0;
    while i <= last
        invariant
            last == s.len() - pat.len(),
            i <= last + 1,
            forall|j: int| 0 <= j < i ==> !occurs_at(s@, pat@, j),
        decreases last + 1 - i,
    {
        let rest = slice_subrange(s, i, s.len());
        if starts_with(rest, pat) {
            assert(rest@.subrange(0, pat@.len() as int) =~= s@.subrange(
                i as int,
                i + pat@.len(),
            ));
            assert(occurs_at(s@, pat@, i as int));
            return true;
        }
        assert(!occurs_at(s@, pat@, i as int)) by {
            assert(rest@.subrange(0, pat@.len() as int) =~= s@.subrange(
                i as int,
                i + pat@.len(),
            ));
        }
        i += 1;
    }
    false
}

/// Tells whether the file that `path` names has the extension `ext`.
pub fn has_extension(path: &[char], ext: &[char]) -> (b: bool)
    ensures
        b == extension_is(path@, ext@),
{
    let name = match rfind(path, '/') {
        Some(k) => slice_subrange(path, k + 1, path.len()),
        None => path,
    };
    assert(name@ =~= path@.skip(last_index(path@, '/') + 1));
    match rfind(name, '.') {
        Some(dot) => dot > 0 && same(slice_subrange(name, dot + 1, name.len()), ext),
        None => false,
    }
}

/// Removes leading and trailing white space.
pub fn trimmed(s: &[char]) -> (t: &[char])
    ensures
        t@ == trim(s@),
{
    let mut a: usize = 0;
    assert(s@.skip(0) =~= s@);
    while a < s.len() && is_whitespace(s[a])
        invariant
            a <= s.len(),
            trim_start(s@.skip(a as int)) == trim_start(s@),
        decreases s.len() - a,
    {
        assert(s@.skip(a as int).drop_first() =~= s@.skip(a + 1));
        a += 1;
    }
    let rest = slice_subrange(s, a, s.len());
    assert(rest@ =~= s@.skip(a as int));
    assert(rest@ == trim_start(s@));
    let mut b: usize = rest.len();
    assert(rest@.take(b as int) =~= rest@);
    while b > 0 && is_whitespace(rest[b - 1])
        invariant
            b <= rest.len(),
            trim_end(rest@.take(b as int)) == trim_end(rest@),
        decreases b,
    {
        assert(rest@.take(b as int).drop_last() =~= rest@.take(b - 1));
        b -= 1;
    }
    slice_subrange(rest, 0, b)
}

/// Splits a text into its lines.
pub fn split_lines(s: &[char]) -> (v: Vec<&[char]>)
    ensures
        slice_views(v@) == lines(s@),
{
    let mut v: Vec<&[char]> = Vec::new();
    let mut from: usize = 0;
    assert(s@.skip(0) =~= s@);
    assert(slice_views(v@) + lines(s@) =~= lines(s@));
    while from < s.len()
        invariant
            from <= s.len(),
            slice_views(v@) + lines(s@.skip(from as int)) == lines(s@),
        decreases s.len() - from,
    {
        let rest = slice_subrange(s, from, s.len());
        let k = find(rest, '\n');
        let line = slice_subrange(rest, 0, k);
        let ghost before = slice_views(v@);
        v.push(line);
        proof {
            assert(rest@ =~= s@.skip(from as int));
            assert(slice_views(v@) =~= before + seq![line@]);
            if k < rest.len() {
                assert(rest@.skip(k + 1) =~= s@.skip(from + k + 1));
                assert(slice_views(v@) + lines(s@.skip(from + k + 1)) =~= before + lines(rest@));
            } else {
                assert(line@ =~= rest@);
                assert(s@.skip(s@.len() as int).len() == 0);
                assert(slice_views(v@) + lines(s@.skip(s@.len() as int)) =~= before + lines(rest@));
            }
        }
        from = if k < rest.len() {
            from + k + 1
        } else {
            s.len()
        };
    }
    assert(s@.skip(from as int).len() == 0);
    assert(slice_views(v@) + lines(s@.skip(from as int)) =~= slice_views(v@));
    v
}

} // verus!
