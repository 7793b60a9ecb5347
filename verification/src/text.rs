//! Character-level text handling shared by the quote codec and the line protocol:
//! Unicode whitespace, trimming, splitting, and building strings.
use vstd::prelude::*;

verus! {

/// `char::is_whitespace`: the characters with the Unicode `White_Space` property.
pub open spec fn is_space(c: char) -> bool {
    ||| ('\u{9}' <= c && c <= '\u{d}')
    ||| c == ' '
    ||| c == '\u{85}'
    ||| c == '\u{a0}'
    ||| c == '\u{1680}'
    ||| ('\u{2000}' <= c && c <= '\u{200a}')
    ||| c == '\u{2028}'
    ||| c == '\u{2029}'
    ||| c == '\u{202f}'
    ||| c == '\u{205f}'
    ||| c == '\u{3000}'
}

/// The text with its leading whitespace removed (`str::trim_start`).
pub open spec fn trim_start(s: Seq<char>) -> Seq<char>
    decreases s.len(),
{
    if s.len() > 0 && is_space(s[0]) {
        trim_start(s.drop_first())
    } else {
        s
    }
}

/// The text with its trailing whitespace removed (`str::trim_end`).
pub open spec fn trim_end(s: Seq<char>) -> Seq<char>
    decreases s.len(),
{
    if s.len() > 0 && is_space(s.last()) {
        trim_end(s.drop_last())
    } else {
        s
    }
}

/// The text with leading and trailing whitespace removed (`str::trim`).
pub open spec fn trim(s: Seq<char>) -> Seq<char> {
    trim_end(trim_start(s))
}

/// The maximal runs of non-whitespace characters, in order (`str::split_whitespace`).
/// Defined character by character: whitespace closes the current word, any
/// other character extends the word it follows or starts a new one.
pub open spec fn words(s: Seq<char>) -> Seq<Seq<char>>
    decreases s.len(),
{
    if s.len() == 0 {
        seq![]
    } else {
        let prev = words(s.drop_last());
        let c = s.last();
        if is_space(c) {
            prev
        } else if s.len() >= 2 && !is_space(s[s.len() - 2]) {
            prev.update(prev.len() - 1, prev.last().push(c))
        } else {
            prev.push(seq![c])
        }
    }
}

/// The pieces of the text between occurrences of `sep`, empty pieces included
/// (`str::split` on a character). There is always at least one piece.
pub open spec fn split_on(s: Seq<char>, sep: char) -> Seq<Seq<char>>
    decreases s.len(),
{
    if s.len() == 0 {
        seq![seq![]]
    } else {
        let prev = split_on(s.drop_last(), sep);
        if s.last() == sep {
            prev.push(seq![])
        } else {
            prev.update(prev.len() - 1, prev.last().push(s.last()))
        }
    }
}

/// No character of the text is `c`.
pub open spec fn free_of(s: Seq<char>, c: char) -> bool {
    forall|i: int| 0 <= i < s.len() ==> s[i] != c
}

/// ASCII letters mapped to lower case, every other character unchanged.
pub open spec fn ascii_lower(c: char) -> char {
    if 'A' <= c && c <= 'Z' {
        ((c as u32) + 32) as char
    } else {
        c
    }
}

/// `str::eq_ignore_ascii_case` against a lower-case pattern.
pub open spec fn eq_ignore_ascii_case(s: Seq<char>, lower: Seq<char>) -> bool {
    &&& s.len() == lower.len()
    &&& forall|i: int| 0 <= i < s.len() ==> ascii_lower(s[i]) == ascii_lower(lower[i])
}

/// An element of the deep view of a vector of character vectors is that vector's characters.
pub proof fn lemma_deep_view_at(v: Vec<Vec<char>>, i: int)
    requires
        0 <= i < v.len(),
    ensures
        v.deep_view()[i] == v@[i]@,
        v.deep_view().len() == v@.len(),
{
    assert(v@[i].deep_view() =~= v@[i]@);
}

pub proof fn lemma_split_on_nonempty(s: Seq<char>, sep: char)
    ensures
        split_on(s, sep).len() >= 1,
    decreases s.len(),
{
    if s.len() > 0 {
        lemma_split_on_nonempty(s.drop_last(), sep);
    }
}

/// A text free of the separator is a single piece.
pub proof fn lemma_split_on_free(s: Seq<char>, sep: char)
    requires
        free_of(s, sep),
    ensures
        split_on(s, sep) == seq![s],
    decreases s.len(),
{
    if s.len() > 0 {
        lemma_split_on_free(s.drop_last(), sep);
        assert(s.drop_last().push(s.last()) =~= s);
        assert(split_on(s, sep) =~= seq![s]);
    } else {
        assert(s =~= seq![]);
    }
}

/// Splitting at a separator splits the pieces: the pieces of `x`, then those of `b`.
pub proof fn lemma_split_on_join(x: Seq<char>, sep: char, b: Seq<char>)
    ensures
        split_on(x + seq![sep] + b, sep) == split_on(x, sep) + split_on(b, sep),
    decreases b.len(),
{
    let whole = x + seq![sep] + b;
    if b.len() == 0 {
        assert(whole.drop_last() =~= x);
        assert(split_on(whole, sep) =~= split_on(x, sep) + split_on(b, sep));
    } else {
        let b2 = b.drop_last();
        assert(whole.drop_last() =~= x + seq![sep] + b2);
        lemma_split_on_join(x, sep, b2);
        lemma_split_on_nonempty(b2, sep);
        lemma_split_on_nonempty(x, sep);
        assert(split_on(whole, sep) =~= split_on(x, sep) + split_on(b, sep));
    }
}

/// A text holding the separator splits into at least two pieces.
pub proof fn lemma_split_on_holding(s: Seq<char>, sep: char)
    requires
        !free_of(s, sep),
    ensures
        split_on(s, sep).len() >= 2,
{
    let i = choose|i: int| 0 <= i < s.len() && s[i] == sep;
    let a = s.take(i);
    let b = s.skip(i + 1);
    assert(s =~= a + seq![sep] + b);
    lemma_split_on_join(a, sep, b);
    lemma_split_on_nonempty(a, sep);
    lemma_split_on_nonempty(b, sep);
}

/// No character of the text is a space.
pub open spec fn spaceless(s: Seq<char>) -> bool {
    forall|i: int| 0 <= i < s.len() ==> !is_space(#[trigger] s[i])
}

/// A text ending in a non-space character has a word.
pub proof fn lemma_words_nonempty(s: Seq<char>)
    requires
        s.len() > 0,
        !is_space(s.last()),
    ensures
        words(s).len() > 0,
    decreases s.len(),
{
    if s.len() >= 2 && !is_space(s[s.len() - 2]) {
        assert(s.drop_last().last() == s[s.len() - 2]);
        lemma_words_nonempty(s.drop_last());
    }
}

/// Words hold no whitespace.
pub proof fn lemma_words_spaceless(s: Seq<char>)
    ensures
        forall|k: int| 0 <= k < words(s).len() ==> spaceless(#[trigger] words(s)[k]),
    decreases s.len(),
{
    if s.len() > 0 {
        let prev = words(s.drop_last());
        lemma_words_spaceless(s.drop_last());
        let c = s.last();
        let w = words(s);
        if s.len() >= 2 && !is_space(s[s.len() - 2]) {
            assert(s.drop_last().last() == s[s.len() - 2]);
            lemma_words_nonempty(s.drop_last());
        }
        if !is_space(c) {
            assert forall|k: int| 0 <= k < w.len() implies spaceless(#[trigger] w[k]) by {
                if k < prev.len() && !(s.len() >= 2 && !is_space(s[s.len() - 2]) && k == prev.len()
                    - 1) {
                    assert(w[k] == prev[k]);
                } else if s.len() >= 2 && !is_space(s[s.len() - 2]) {
                    let last = prev.last();
                    assert(spaceless(prev[prev.len() - 1]));
                    assert forall|i: int| 0 <= i < w[k].len() implies !is_space(
                        #[trigger] w[k][i],
                    ) by {
                        if i < last.len() {
                            assert(w[k][i] == last[i]);
                        }
                    }
                } else {
                    assert(w[k] == seq![c]);
                }
            }
        }
    }
}

/// The pieces of a text free of a character are free of it.
pub proof fn lemma_split_on_keeps_free(s: Seq<char>, sep: char, c: char)
    requires
        free_of(s, c),
    ensures
        forall|k: int| 0 <= k < split_on(s, sep).len() ==> free_of(#[trigger] split_on(s, sep)[k], c),
    decreases s.len(),
{
    if s.len() > 0 {
        let prev = split_on(s.drop_last(), sep);
        lemma_split_on_keeps_free(s.drop_last(), sep, c);
        lemma_split_on_nonempty(s.drop_last(), sep);
        let p = split_on(s, sep);
        assert forall|k: int| 0 <= k < p.len() implies free_of(#[trigger] p[k], c) by {
            if s.last() != sep && k == prev.len() - 1 {
                let last = prev.last();
                assert(free_of(prev[prev.len() - 1], c));
                assert forall|i: int| 0 <= i < p[k].len() implies p[k][i] != c by {
                    if i < last.len() {
                        assert(p[k][i] == last[i]);
                    } else {
                        assert(p[k][i] == s[s.len() - 1]);
                    }
                }
            } else if k < prev.len() {
                assert(p[k] == prev[k]);
            }
        }
    }
}

/// Trimming keeps a text free of a character.
pub proof fn lemma_trim_keeps_free(s: Seq<char>, c: char)
    requires
        free_of(s, c),
    ensures
        free_of(trim_start(s), c),
        free_of(trim_end(s), c),
        free_of(trim(s), c),
    decreases s.len(),
{
    if s.len() > 0 {
        assert(free_of(s.drop_first(), c)) by {
            assert forall|i: int| 0 <= i < s.len() - 1 implies s.drop_first()[i] != c by {
                assert(s.drop_first()[i] == s[i + 1]);
            }
        }
        assert(free_of(s.drop_last(), c)) by {
            assert forall|i: int| 0 <= i < s.len() - 1 implies s.drop_last()[i] != c by {
                assert(s.drop_last()[i] == s[i]);
            }
        }
        lemma_trim_keeps_free(s.drop_first(), c);
        lemma_trim_keeps_free(s.drop_last(), c);
    }
    lemma_trim_end_keeps_free(trim_start(s), c);
}

proof fn lemma_trim_end_keeps_free(s: Seq<char>, c: char)
    requires
        free_of(s, c),
    ensures
        free_of(trim_end(s), c),
    decreases s.len(),
{
    if s.len() > 0 {
        assert(free_of(s.drop_last(), c)) by {
            assert forall|i: int| 0 <= i < s.len() - 1 implies s.drop_last()[i] != c by {
                assert(s.drop_last()[i] == s[i]);
            }
        }
        lemma_trim_end_keeps_free(s.drop_last(), c);
    }
}

/// `char::is_whitespace`.
pub fn is_space_char(c: char) -> (r: bool)
    ensures
        r == is_space(c),
{
    ('\u{9}' <= c && c <= '\u{d}') || c == ' ' || c == '\u{85}' || c == '\u{a0}' || c
        == '\u{1680}' || ('\u{2000}' <= c && c <= '\u{200a}') || c == '\u{2028}' || c
        == '\u{2029}' || c == '\u{202f}' || c == '\u{205f}' || c == '\u{3000}'
}

/// `String::push`: appends one character.
#[verifier::external_body]
pub(crate) fn push_char(s: &mut String, c: char)
    ensures
        final(s)@ == old(s)@.push(c),
{
    s.push(c);
}

/// The characters of a string slice, in order.
pub fn chars_of(s: &str) -> (r: Vec<char>)
    ensures
        r@ == s@,
{
    let mut r: Vec<char> = Vec::new();
    for c in it: s.chars()
        invariant
            r@ == it.seq().take(it.index() as int),
            it.seq() == s@,
    {
        r.push(c);
    }
    r
}

/// A string holding the given characters.
pub fn string_from_chars(v: &Vec<char>) -> (r: String)
    ensures
        r@ == v@,
{
    let mut r = String::new();
    let mut i: usize = 0;
    while i < v.len()
        invariant
            i <= v.len(),
            r@ == v@.take(i as int),
        decreases v.len() - i,
    {
        push_char(&mut r, v[i]);
        i += 1;
        assert(r@ =~= v@.take(i as int));
    }
    assert(v@.take(v.len() as int) =~= v@);
    r
}

/// Appends a string's characters.
pub fn append_string(out: &mut String, s: &String)
    ensures
        final(out)@ == old(out)@ + s@,
{
    out.append(s.as_str());
}

/// Appends the characters of a vector.
pub fn append_chars(out: &mut String, v: &Vec<char>)
    ensures
        final(out)@ == old(out)@ + v@,
{
    let ghost start = out@;
    let mut i: usize = 0;
    while i < v.len()
        invariant
            i <= v.len(),
            out@ == start + v@.take(i as int),
        decreases v.len() - i,
    {
        push_char(out, v[i]);
        i += 1;
        assert(out@ =~= start + v@.take(i as int));
    }
    assert(v@.take(v.len() as int) =~= v@);
}

/// Whether the characters equal those of a string slice.
pub fn chars_equal(v: &Vec<char>, lit: &str) -> (r: bool)
    ensures
        r == (v@ == lit@),
{
    let n = lit.unicode_len();
    if v.len() != n {
        return false;
    }
    let mut i: usize = 0;
    while i < n
        invariant
            i <= n,
            n == lit@.len(),
            v@.len() == n,
            forall|j: int| 0 <= j < i ==> v@[j] == lit@[j],
        decreases n - i,
    {
        if v[i] != lit.get_char(i) {
            return false;
        }
        i += 1;
    }
    assert(v@ =~= lit@);
    true
}

/// The characters from `lo` up to `hi`.
pub fn copy_range(v: &Vec<char>, lo: usize, hi: usize) -> (r: Vec<char>)
    requires
        lo <= hi <= v.len(),
    ensures
        r@ == v@.subrange(lo as int, hi as int),
{
    let mut r: Vec<char> = Vec::new();
    let mut i = lo;
    while i < hi
        invariant
            lo <= i <= hi,
            hi <= v.len(),
            r@ == v@.subrange(lo as int, i as int),
        decreases hi - i,
    {
        r.push(v[i]);
        i += 1;
        assert(r@ =~= v@.subrange(lo as int, i as int));
    }
    r
}

/// `str::trim` on a character vector.
pub fn trim_chars(v: &Vec<char>) -> (r: Vec<char>)
    ensures
        r@ == trim(v@),
{
    let n = v.len();
    let mut a: usize = 0;
    assert(v@.subrange(0, n as int) =~= v@);
    while a < n && is_space_char(v[a])
        invariant
            a <= n,
            n == v.len(),
            trim_start(v@) == trim_start(v@.subrange(a as int, n as int)),
        decreases n - a,
    {
        assert(v@.subrange(a as int, n as int).drop_first() =~= v@.subrange(a + 1, n as int));
        a += 1;
    }
    let mut b: usize = n;
    while b > a && is_space_char(v[b - 1])
        invariant
            a <= b <= n,
            n == v.len(),
            trim_start(v@) == v@.subrange(a as int, n as int),
            trim(v@) == trim_end(v@.subrange(a as int, b as int)),
        decreases b - a,
    {
        assert(v@.subrange(a as int, b as int).drop_last() =~= v@.subrange(a as int, b - 1));
        b -= 1;
    }
    copy_range(v, a, b)
}

/// `str::split_whitespace` on a character vector.
pub fn split_words(v: &Vec<char>) -> (r: Vec<Vec<char>>)
    ensures
        r.deep_view() == words(v@),
{
    let mut r: Vec<Vec<char>> = Vec::new();
    let mut cur: Vec<char> = Vec::new();
    let mut i: usize = 0;
    assert(v@.subrange(0, 0) =~= seq![]);
    while i < v.len()
        invariant
            i <= v.len(),
            words(v@.subrange(0, i as int)) == (if cur.len() > 0 {
                r.deep_view().push(cur@)
            } else {
                r.deep_view()
            }),
            cur.len() > 0 <==> (i > 0 && !is_space(v@[i - 1])),
        decreases v.len() - i,
    {
        let c = v[i];
        let ghost prev_r = r.deep_view();
        let ghost prev_cur = cur@;
        assert(v@.subrange(0, i + 1).drop_last() =~= v@.subrange(0, i as int));
        assert(v@.subrange(0, i + 1).last() == c);
        if is_space_char(c) {
            if cur.len() > 0 {
                assert(cur.deep_view() =~= cur@);
                r.push(cur);
                cur = Vec::new();
                assert(r.deep_view() =~= prev_r.push(prev_cur));
            }
        } else {
            cur.push(c);
            proof {
                if prev_cur.len() > 0 {
                    assert(v@.subrange(0, i + 1)[i - 1] == v@[i - 1]);
                    assert(prev_r.push(prev_cur).update(prev_r.len() as int, prev_cur.push(c))
                        =~= prev_r.push(cur@));
                } else {
                    assert(i > 0 ==> v@.subrange(0, i + 1)[i - 1] == v@[i - 1]);
                    assert(prev_cur.push(c) =~= seq![c]);
                }
            }
        }
        i += 1;
    }
    assert(v@.subrange(0, v.len() as int) =~= v@);
    if cur.len() > 0 {
        let ghost prev_r = r.deep_view();
        let ghost prev_cur = cur@;
        assert(cur.deep_view() =~= cur@);
        r.push(cur);
        assert(r.deep_view() =~= prev_r.push(prev_cur));
    }
    r
}

/// `str::split` on a separator character, applied to a character vector.
pub fn split_chars(v: &Vec<char>, sep: char) -> (r: Vec<Vec<char>>)
    ensures
        r.deep_view() == split_on(v@, sep),
{
    let mut r: Vec<Vec<char>> = Vec::new();
    let mut cur: Vec<char> = Vec::new();
    let mut i: usize = 0;
    assert(v@.subrange(0, 0) =~= seq![]);
    assert(r.deep_view().push(cur@) =~= seq![seq![]]);
    while i < v.len()
        invariant
            i <= v.len(),
            split_on(v@.subrange(0, i as int), sep) == r.deep_view().push(cur@),
        decreases v.len() - i,
    {
        let c = v[i];
        let ghost prev_r = r.deep_view();
        let ghost prev_cur = cur@;
        assert(v@.subrange(0, i + 1).drop_last() =~= v@.subrange(0, i as int));
        assert(v@.subrange(0, i + 1).last() == c);
        if c == sep {
            assert(cur.deep_view() =~= cur@);
            r.push(cur);
            cur = Vec::new();
            assert(r.deep_view() =~= prev_r.push(prev_cur));
            assert(prev_r.push(prev_cur).push(seq![]) =~= r.deep_view().push(cur@));
        } else {
            cur.push(c);
            assert(prev_r.push(prev_cur).update(prev_r.len() as int, prev_cur.push(c))
                =~= prev_r.push(cur@));
        }
        i += 1;
    }
    assert(v@.subrange(0, v.len() as int) =~= v@);
    let ghost prev_r = r.deep_view();
    let ghost prev_cur = cur@;
    assert(cur.deep_view() =~= cur@);
    r.push(cur);
    assert(r.deep_view() =~= prev_r.push(prev_cur));
    r
}

/// `str::eq_ignore_ascii_case`.
pub fn chars_eq_ignore_ascii_case(v: &Vec<char>, lit: &str) -> (r: bool)
    ensures
        r == eq_ignore_ascii_case(v@, lit@),
{
    let n = lit.unicode_len();
    if v.len() != n {
        return false;
    }
    let mut i: usize = 0;
    while i < n
        invariant
            i <= n,
            n == lit@.len(),
            v@.len() == n,
            forall|j: int| 0 <= j < i ==> ascii_lower(v@[j]) == ascii_lower(lit@[j]),
        decreases n - i,
    {
        if lower_char(v[i]) != lower_char(lit.get_char(i)) {
            return false;
        }
        i += 1;
    }
    true
}

/// `char::to_ascii_lowercase`.
pub fn lower_char(c: char) -> (r: char)
    ensures
        r == ascii_lower(c),
{
    if 'A' <= c && c <= 'Z' {
        let b: u8 = (c as u8) + 32;
        b as char
    } else {
        c
    }
}

} // verus!
