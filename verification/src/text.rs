//! Character-level text handling shared by the configuration grammar:
//! Unicode white space, trimming, and conversions between `str`, `String`
//! and vectors of characters.

use vstd::prelude::*;

verus! {

broadcast use vstd::string::axiom_spec_iter;

/// The characters that carry the Unicode `White_Space` property
/// (PropList.txt), the set that `char::is_whitespace` and `str::trim` use.
pub open spec fn is_white_space(c: char) -> bool {
    let u: u32 = c as u32;
    ||| 0x09 <= u <= 0x0D
    ||| u == 0x20
    ||| u == 0x85
    ||| u == 0xA0
    ||| u == 0x1680
    ||| 0x2000 <= u <= 0x200A
    ||| u == 0x2028
    ||| u == 0x2029
    ||| u == 0x202F
    ||| u == 0x205F
    ||| u == 0x3000
}

/// `s` without its leading white space.
pub open spec fn trim_start(s: Seq<char>) -> Seq<char>
    decreases s.len(),
{
    if s.len() > 0 && is_white_space(s[0]) {
        trim_start(s.drop_first())
    } else {
        s
    }
}

/// `s` without its trailing white space.
pub open spec fn trim_end(s: Seq<char>) -> Seq<char>
    decreases s.len(),
{
    if s.len() > 0 && is_white_space(s.last()) {
        trim_end(s.drop_last())
    } else {
        s
    }
}

/// `s` without leading and trailing white space, as `str::trim` returns it.
pub open spec fn trim(s: Seq<char>) -> Seq<char> {
    trim_end(trim_start(s))
}

/// Whether `c` has the Unicode `White_Space` property.
pub fn is_whitespace(c: char) -> (b: bool)
    ensures
        b == is_white_space(c),
{
    let u: u32 = c as u32;
    (0x09 <= u && u <= 0x0D) || u == 0x20 || u == 0x85 || u == 0xA0 || u == 0x1680 || (0x2000
        <= u && u <= 0x200A) || u == 0x2028 || u == 0x2029 || u == 0x202F || u == 0x205F || u
        == 0x3000
}

/// The characters of `s`, in order.
pub fn chars_of(s: &str) -> (v: Vec<char>)
    ensures
        v@ == s@,
{
    let mut v: Vec<char> = Vec::new();
    for c in it: s.chars()
        invariant
            v@ == it.seq().take(it.index() as int),
            it.seq() == s@,
    {
        v.push(c);
    }
    v
}

/// `String::push`: appends `c` at the end of `s`.
#[verifier::external_body]
fn push_char(s: &mut String, c: char)
    ensures
        final(s)@ == old(s)@.push(c),
{
    s.push(c);
}

/// A `String` holding the characters of `v`.
pub fn string_of(v: &[char]) -> (s: String)
    ensures
        s@ == v@,
{
    let mut s = String::new();
    let mut i: usize = 0;
    while i < v.len()
        invariant
            i <= v@.len(),
            s@ == v@.take(i as int),
        decreases v@.len() - i,
    {
        push_char(&mut s, v[i]);
        assert(v@.take(i + 1) =~= v@.take(i as int).push(v@[i as int]));
        i = i + 1;
    }
    assert(v@.take(v@.len() as int) =~= v@);
    s
}

/// The characters `v[lo..hi]` as a vector of their own.
pub fn slice_chars(v: &[char], lo: usize, hi: usize) -> (r: Vec<char>)
    requires
        lo <= hi <= v@.len(),
    ensures
        r@ == v@.subrange(lo as int, hi as int),
{
    let mut r: Vec<char> = Vec::new();
    let mut i: usize = lo;
    while i < hi
        invariant
            lo <= i <= hi <= v@.len(),
            r@ == v@.subrange(lo as int, i as int),
        decreases hi - i,
    {
        r.push(v[i]);
        assert(v@.subrange(lo as int, i + 1) =~= v@.subrange(lo as int, i as int).push(
            v@[i as int],
        ));
        i = i + 1;
    }
    r
}

/// Whether `a` and `b` hold the same characters.
pub fn chars_equal(a: &[char], b: &[char]) -> (r: bool)
    ensures
        r == (a@ == b@),
{
    if a.len() != b.len() {
        return false;
    }
    let mut i: usize = 0;
    while i < a.len()
        invariant
            a@.len() == b@.len(),
            i <= a@.len(),
            forall|k: int| 0 <= k < i ==> a@[k] == b@[k],
        decreases a@.len() - i,
    {
        if a[i] != b[i] {
            return false;
        }
        i = i + 1;
    }
    assert(a@ =~= b@);
    true
}

proof fn lemma_trim_start_skip(s: Seq<char>, i: int)
    requires
        0 <= i <= s.len(),
        forall|k: int| 0 <= k < i ==> is_white_space(#[trigger] s[k]),
    ensures
        trim_start(s) == trim_start(s.subrange(i, s.len() as int)),
    decreases i,
{
    if i > 0 {
        assert(s.drop_first() =~= s.subrange(1, s.len() as int));
        lemma_trim_start_skip(s.drop_first(), i - 1);
        assert(s.drop_first().subrange(i - 1, s.drop_first().len() as int) =~= s.subrange(
            i,
            s.len() as int,
        ));
    } else {
        assert(s.subrange(0, s.len() as int) =~= s);
    }
}

proof fn lemma_trim_end_cut(s: Seq<char>, j: int)
    requires
        0 <= j <= s.len(),
        forall|k: int| j <= k < s.len() ==> is_white_space(#[trigger] s[k]),
    ensures
        trim_end(s) == trim_end(s.subrange(0, j)),
    decreases s.len() - j,
{
    if j < s.len() {
        lemma_trim_end_cut(s.drop_last(), j);
        assert(s.drop_last().subrange(0, j) =~= s.subrange(0, j));
    } else {
        assert(s.subrange(0, j) =~= s);
    }
}

/// `v` without leading and trailing white space.
pub fn trim_chars(v: &[char]) -> (r: Vec<char>)
    ensures
        r@ == trim(v@),
{
    let n: usize = v.len();
    let mut i: usize = 0;
    while i < n && is_whitespace(v[i])
        invariant
            n == v@.len(),
            i <= n,
            forall|k: int| 0 <= k < i ==> is_white_space(#[trigger] v@[k]),
        decreases n - i,
    {
        i = i + 1;
    }
    proof {
        lemma_trim_start_skip(v@, i as int);
    }
    let ghost t = v@.subrange(i as int, n as int);
    assert(trim_start(v@) == t);
    let mut j: usize = n;
    while j > i && is_whitespace(v[j - 1])
        invariant
            n == v@.len(),
            i <= j <= n,
            t == v@.subrange(i as int, n as int),
            forall|k: int| j - i <= k < t.len() ==> is_white_space(#[trigger] t[k]),
        decreases j,
    {
        j = j - 1;
    }
    proof {
        lemma_trim_end_cut(t, j - i);
        assert(t.subrange(0, j - i) =~= v@.subrange(i as int, j as int));
    }
    slice_chars(v, i, j)
}

/// The Unicode lowercase form of a string, as `str::to_lowercase` computes it
/// (the mapping of the Unicode `Lowercase` property, with its rule for a final
/// capital sigma).
pub uninterp spec fn unicode_lowercase(s: Seq<char>) -> Seq<char>;

/// Whether every character of `s` is ASCII.
pub open spec fn is_ascii_text(s: Seq<char>) -> bool {
    forall|i: int| 0 <= i < s.len() ==> (#[trigger] s[i] as u32) < 128
}

/// `c` with an ASCII capital turned into its lowercase letter; any other
/// character unchanged.
pub open spec fn ascii_lower(c: char) -> char {
    if 'A' <= c <= 'Z' {
        ((c as u32) + 32) as char
    } else {
        c
    }
}

/// The lowercase form of `s` that `str::to_lowercase` gives: ASCII text has
/// its capitals `A`-`Z` turned into `a`-`z` and every other character kept;
/// any other text goes through the Unicode mapping.
pub open spec fn lowercase(s: Seq<char>) -> Seq<char> {
    if is_ascii_text(s) {
        s.map_values(|c: char| ascii_lower(c))
    } else {
        unicode_lowercase(s)
    }
}

/// `str::to_lowercase`. Its result is named by `unicode_lowercase`; nothing
/// more of the Unicode case tables is stated.
#[verifier::external_body]
fn std_to_lowercase(s: &str) -> (r: String)
    ensures
        r@ == unicode_lowercase(s@),
{
    s.to_lowercase()
}

/// Whether every character of `v` is ASCII.
fn is_ascii_exec(v: &[char]) -> (b: bool)
    ensures
        b == is_ascii_text(v@),
{
    let mut i: usize = 0;
    while i < v.len()
        invariant
            i <= v@.len(),
            forall|k: int| 0 <= k < i ==> (#[trigger] v@[k] as u32) < 128,
        decreases v@.len() - i,
    {
        if v[i] as u32 >= 128 {
            return false;
        }
        i = i + 1;
    }
    true
}

/// The lowercase form of the characters `v`.
pub fn lowercase_chars(v: &[char]) -> (r: Vec<char>)
    ensures
        r@ == lowercase(v@),
{
    if is_ascii_exec(v) {
        let mut r: Vec<char> = Vec::new();
        let mut i: usize = 0;
        while i < v.len()
            invariant
                i <= v@.len(),
                r@ == v@.take(i as int).map_values(|c: char| ascii_lower(c)),
            decreases v@.len() - i,
        {
            let c = v[i];
            let l: char = if 'A' <= c && c <= 'Z' {
                ((c as u8) + 32) as char
            } else {
                c
            };
            assert(l == ascii_lower(c));
            r.push(l);
            assert(v@.take(i + 1).map_values(|c: char| ascii_lower(c)) =~= v@.take(
                i as int,
            ).map_values(|c: char| ascii_lower(c)).push(ascii_lower(c)));
            i = i + 1;
        }
        assert(v@.take(v@.len() as int) =~= v@);
        r
    } else {
        let s = string_of(v);
        let l = std_to_lowercase(s.as_str());
        chars_of(l.as_str())
    }
}

/// The code of `c` with ASCII capitals folded to lowercase, the comparison
/// key of `eq_ignore_ascii_case`.
pub open spec fn ascii_fold(c: char) -> u32 {
    if 'A' <= c <= 'Z' {
        (c as u32 + 32) as u32
    } else {
        c as u32
    }
}

/// Whether `a` and `b` are the same text up to the case of ASCII letters.
pub open spec fn eq_ignore_ascii_case(a: Seq<char>, b: Seq<char>) -> bool {
    &&& a.len() == b.len()
    &&& forall|i: int| 0 <= i < a.len() ==> ascii_fold(#[trigger] a[i]) == ascii_fold(b[i])
}

fn ascii_fold_exec(c: char) -> (u: u32)
    ensures
        u == ascii_fold(c),
{
    if 'A' <= c && c <= 'Z' {
        c as u32 + 32
    } else {
        c as u32
    }
}

/// Whether `a` and `b` are the same text up to the case of ASCII letters.
pub fn chars_eq_ignore_ascii_case(a: &[char], b: &[char]) -> (r: bool)
    ensures
        r == eq_ignore_ascii_case(a@, b@),
{
    if a.len() != b.len() {
        return false;
    }
    let mut i: usize = 0;
    while i < a.len()
        invariant
            a@.len() == b@.len(),
            i <= a@.len(),
            forall|k: int| 0 <= k < i ==> ascii_fold(#[trigger] a@[k]) == ascii_fold(b@[k]),
        decreases a@.len() - i,
    {
        if ascii_fold_exec(a[i]) != ascii_fold_exec(b[i]) {
            return false;
        }
        i = i + 1;
    }
    true
}

/// The position of the first `c` in `v`, if there is one.
pub fn find_char(v: &[char], c: char) -> (r: Option<usize>)
    ensures
        match r {
            Some(p) => p < v@.len() && v@[p as int] == c && v@.index_of_first(c) == Some(p as int),
            None => v@.index_of_first(c) is None,
        },
{
    let mut i: usize = 0;
    while i < v.len()
        invariant
            i <= v@.len(),
            forall|k: int| 0 <= k < i ==> v@[k] != c,
        decreases v@.len() - i,
    {
        if v[i] == c {
            proof {
                v@.index_of_first_ensures(c);
                let idx: int = v@.index_of_first(c)->0;
                assert(v@.contains(c));
                if idx < i {
                    assert(v@[idx] != c);
                }
                if idx > i {
                    assert(v@[i as int] != c);
                }
            }
            return Some(i);
        }
        i = i + 1;
    }
    proof {
        v@.index_of_first_ensures(c);
        if v@.contains(c) {
            let k = choose|k: int| 0 <= k < v@.len() && v@[k] == c;
            assert(v@[k] != c);
        }
    }
    None
}

} // verus!
