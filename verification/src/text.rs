use vstd::prelude::*;
use vstd::string::StrSliceExecFns;
use vstd::utf8::{decode_utf8, valid_utf8};

verus! {

/// The Unicode `White_Space` characters (those for which `char::is_whitespace` holds).
pub open spec fn is_white_space(c: char) -> bool {
    let u = c as u32;
    ||| 0x9 <= u <= 0xD
    ||| u == 0x20
    ||| u == 0x85
    ||| u == 0xA0
    ||| u == 0x1680
    ||| 0x2000 <= u <= 0x200A
    ||| u == 0x2028
    ||| u == 0x2029
    ||| u == 0x202F
    ||| u == 0x205F
    ||| u == 0x3000
}

/// Every character is white space (so the text trims to nothing).
pub open spec fn is_blank(s: Seq<char>) -> bool {
    forall|i: int| 0 <= i < s.len() ==> is_white_space(#[trigger] s[i])
}

/// `s` without its leading white space.
pub open spec fn trim_start(s: Seq<char>) -> Seq<char>
    decreases s.len(),
{
    if s.len() > 0 && is_white_space(s[0]) {
        trim_start(s.drop_first())
    } else {
        s
    }
}

/// `s` without its trailing white space.
pub open spec fn trim_end(s: Seq<char>) -> Seq<char>
    decreases s.len(),
{
    if s.len() > 0 && is_white_space(s.last()) {
        trim_end(s.drop_last())
    } else {
        s
    }
}

/// `s` without leading and trailing white space, as `str::trim` gives it.
pub open spec fn trim(s: Seq<char>) -> Seq<char> {
    trim_end(trim_start(s))
}

/// The ASCII upper case of a character; other characters are unchanged.
pub open spec fn ascii_upper(c: char) -> char {
    if 'a' <= c <= 'z' {
        ((c as u32) - 32) as char
    } else {
        c
    }
}

/// The ASCII upper case of a text, as `str::to_ascii_uppercase` gives it.
pub open spec fn ascii_uppercase_seq(s: Seq<char>) -> Seq<char> {
    s.map_values(|c: char| ascii_upper(c))
}

pub proof fn lemma_trim_start_skip(s: Seq<char>, k: int)
    requires
        0 <= k <= s.len(),
        forall|i: int| 0 <= i < k ==> is_white_space(#[trigger] s[i]),
        k == s.len() || !is_white_space(s[k]),
    ensures
        trim_start(s) == s.subrange(k, s.len() as int),
    decreases k,
{
    if k == 0 {
        assert(s.subrange(0, s.len() as int) =~= s);
    } else {
        let t = s.drop_first();
        assert forall|i: int| 0 <= i < k - 1 implies is_white_space(#[trigger] t[i]) by {
            assert(t[i] == s[i + 1]);
        }
        if k - 1 < t.len() {
            assert(t[k - 1] == s[k]);
        }
        lemma_trim_start_skip(t, k - 1);
        assert(t.subrange(k - 1, t.len() as int) =~= s.subrange(k, s.len() as int));
    }
}

pub proof fn lemma_trim_end_take(s: Seq<char>, k: int)
    requires
        0 <= k <= s.len(),
        forall|i: int| k <= i < s.len() ==> is_white_space(#[trigger] s[i]),
        k == 0 || !is_white_space(s[k - 1]),
    ensures
        trim_end(s) == s.subrange(0, k),
    decreases s.len() - k,
{
    if k == s.len() {
        if s.len() > 0 {
            assert(s.last() == s[k - 1]);
        }
        assert(s.subrange(0, k) =~= s);
    } else {
        let t = s.drop_last();
        assert(s.last() == s[s.len() - 1]);
        assert forall|i: int| k <= i < t.len() implies is_white_space(#[trigger] t[i]) by {
            assert(t[i] == s[i]);
        }
        if k > 0 {
            assert(t[k - 1] == s[k - 1]);
        }
        lemma_trim_end_take(t, k);
        assert(t.subrange(0, k) =~= s.subrange(0, k));
    }
}

/// The ASCII lower case of a character; other characters are unchanged.
pub open spec fn ascii_lower(c: char) -> char {
    if 'A' <= c <= 'Z' {
        ((c as u32) + 32) as char
    } else {
        c
    }
}

/// The ASCII lower case of a text, as `str::to_ascii_lowercase` gives it.
pub open spec fn ascii_lowercase_seq(s: Seq<char>) -> Seq<char> {
    s.map_values(|c: char| ascii_lower(c))
}

/// Changing the case of a letter gives a letter, so white space stays white space and
/// nothing else becomes it; upper-casing ignores an earlier change of case.
pub proof fn lemma_ascii_case_chars(c: char)
    ensures
        is_white_space(ascii_upper(c)) == is_white_space(c),
        is_white_space(ascii_lower(c)) == is_white_space(c),
        ascii_upper(ascii_upper(c)) == ascii_upper(c),
        ascii_upper(ascii_lower(c)) == ascii_upper(c),
{
}

/// A character map that keeps white space and non-white space apart commutes with trimming.
proof fn lemma_trim_map(s: Seq<char>, f: spec_fn(char) -> char)
    requires
        forall|c: char| #[trigger] is_white_space(f(c)) == is_white_space(c),
    ensures
        trim_start(s.map_values(f)) == trim_start(s).map_values(f),
        trim_end(s.map_values(f)) == trim_end(s).map_values(f),
        trim(s.map_values(f)) == trim(s).map_values(f),
    decreases s.len(),
{
    if s.len() > 0 {
        let m = s.map_values(f);
        assert(m.drop_first() =~= s.drop_first().map_values(f));
        assert(m.drop_last() =~= s.drop_last().map_values(f));
        assert(is_white_space(f(s[0])) == is_white_space(s[0]));
        assert(is_white_space(f(s.last())) == is_white_space(s.last()));
        lemma_trim_map(s.drop_first(), f);
        lemma_trim_map(s.drop_last(), f);
    } else {
        assert(s.map_values(f) =~= Seq::<char>::empty());
    }
    lemma_trim_map_end(trim_start(s), f);
}

proof fn lemma_trim_map_end(s: Seq<char>, f: spec_fn(char) -> char)
    requires
        forall|c: char| #[trigger] is_white_space(f(c)) == is_white_space(c),
    ensures
        trim_end(s.map_values(f)) == trim_end(s).map_values(f),
    decreases s.len(),
{
    if s.len() > 0 {
        let m = s.map_values(f);
        assert(m.drop_last() =~= s.drop_last().map_values(f));
        assert(is_white_space(f(s.last())) == is_white_space(s.last()));
        lemma_trim_map_end(s.drop_last(), f);
    } else {
        assert(s.map_values(f) =~= Seq::<char>::empty());
    }
}

/// Trimming ignores the case of ASCII letters.
pub proof fn lemma_trim_case(s: Seq<char>)
    ensures
        trim(ascii_uppercase_seq(s)) == ascii_uppercase_seq(trim(s)),
        trim(ascii_lowercase_seq(s)) == ascii_lowercase_seq(trim(s)),
{
    let up = |c: char| ascii_upper(c);
    let lo = |c: char| ascii_lower(c);
    assert forall|c: char| #[trigger] is_white_space(up(c)) == is_white_space(c) by {
        lemma_ascii_case_chars(c);
    }
    assert forall|c: char| #[trigger] is_white_space(lo(c)) == is_white_space(c) by {
        lemma_ascii_case_chars(c);
    }
    lemma_trim_map(s, up);
    lemma_trim_map(s, lo);
    assert(ascii_uppercase_seq(s) =~= s.map_values(up));
    assert(ascii_lowercase_seq(s) =~= s.map_values(lo));
    assert(ascii_uppercase_seq(trim(s)) =~= trim(s).map_values(up));
    assert(ascii_lowercase_seq(trim(s)) =~= trim(s).map_values(lo));
}

proof fn lemma_trim_start_blank_prefix(a: Seq<char>, x: Seq<char>)
    requires
        is_blank(a),
    ensures
        trim_start(a + x) == trim_start(x),
    decreases a.len(),
{
    if a.len() > 0 {
        assert((a + x)[0] == a[0]);
        assert((a + x).drop_first() =~= a.drop_first() + x);
        lemma_trim_start_blank_prefix(a.drop_first(), x);
    } else {
        assert(a + x =~= x);
    }
}

proof fn lemma_trim_end_blank_suffix(x: Seq<char>, b: Seq<char>)
    requires
        is_blank(b),
    ensures
        trim_end(x + b) == trim_end(x),
    decreases b.len(),
{
    if b.len() > 0 {
        assert((x + b).last() == b.last());
        assert((x + b).drop_last() =~= x + b.drop_last());
        lemma_trim_end_blank_suffix(x, b.drop_last());
    } else {
        assert(x + b =~= x);
    }
}

proof fn lemma_trim_start_append(s: Seq<char>, b: Seq<char>)
    requires
        is_blank(b),
    ensures
        trim_start(s + b) == if is_blank(s) {
            Seq::<char>::empty()
        } else {
            trim_start(s) + b
        },
        is_blank(s) ==> trim_start(s) == Seq::<char>::empty(),
    decreases s.len(),
{
    if s.len() == 0 {
        assert(s + b =~= b);
        lemma_trim_start_blank_prefix(b, Seq::<char>::empty());
        assert(b + Seq::<char>::empty() =~= b);
    } else {
        assert((s + b)[0] == s[0]);
        if is_white_space(s[0]) {
            assert((s + b).drop_first() =~= s.drop_first() + b);
            lemma_trim_start_append(s.drop_first(), b);
            assert(is_blank(s) == is_blank(s.drop_first())) by {
                if is_blank(s.drop_first()) {
                    assert forall|i: int| 0 <= i < s.len() implies is_white_space(#[trigger] s[i]) by {
                        if i > 0 {
                            assert(s[i] == s.drop_first()[i - 1]);
                        }
                    }
                }
                if is_blank(s) {
                    assert forall|i: int| 0 <= i < s.drop_first().len() implies is_white_space(
                        #[trigger] s.drop_first()[i],
                    ) by {
                        assert(s.drop_first()[i] == s[i + 1]);
                    }
                }
            }
        } else {
            assert(!is_white_space(s[0]));
        }
    }
}

/// Blank text around a text does not change what it trims to.
pub proof fn lemma_trim_blank_around(a: Seq<char>, s: Seq<char>, b: Seq<char>)
    requires
        is_blank(a),
        is_blank(b),
    ensures
        trim(a + s + b) == trim(s),
{
    assert(a + s + b =~= a + (s + b));
    lemma_trim_start_blank_prefix(a, s + b);
    lemma_trim_start_append(s, b);
    if !is_blank(s) {
        lemma_trim_end_blank_suffix(trim_start(s), b);
    }
}

/// `char::is_whitespace`.
pub fn char_is_whitespace(c: char) -> (r: bool)
    ensures
        r == is_white_space(c),
{
    let u = c as u32;
    (0x9 <= u && u <= 0xD) || u == 0x20 || u == 0x85 || u == 0xA0 || u == 0x1680 || (0x2000 <= u && u
        <= 0x200A) || u == 0x2028 || u == 0x2029 || u == 0x202F || u == 0x205F || u == 0x3000
}

/// Whether the text trims to nothing (`s.trim().is_empty()`).
pub fn str_is_blank(s: &str) -> (r: bool)
    ensures
        r == is_blank(s@),
{
    let n = s.unicode_len();
    let mut i: usize = 0;
    while i < n
        invariant
            n as int == s@.len(),
            0 <= i <= n,
            forall|j: int| 0 <= j < i ==> is_white_space(#[trigger] s@[j]),
        decreases n - i,
    {
        if !char_is_whitespace(s.get_char(i)) {
            return false;
        }
        i = i + 1;
    }
    true
}

/// The bounds of `s.trim()` within `s`, in characters.
pub fn trim_bounds(s: &str) -> (r: (usize, usize))
    ensures
        r.0 <= r.1 <= s@.len(),
        trim(s@) == s@.subrange(r.0 as int, r.1 as int),
        r.0 == r.1 <==> is_blank(s@),
{
    let n = s.unicode_len();
    let mut lo: usize = 0;
    while lo < n && char_is_whitespace(s.get_char(lo))
        invariant
            n as int == s@.len(),
            0 <= lo <= n,
            forall|j: int| 0 <= j < lo ==> is_white_space(#[trigger] s@[j]),
        decreases n - lo,
    {
        lo = lo + 1;
    }
    let mut hi: usize = n;
    while hi > lo && char_is_whitespace(s.get_char(hi - 1))
        invariant
            n as int == s@.len(),
            0 <= lo <= hi <= n,
            forall|j: int| hi <= j < n ==> is_white_space(#[trigger] s@[j]),
        decreases hi - lo,
    {
        hi = hi - 1;
    }
    proof {
        lemma_trim_start_skip(s@, lo as int);
        let t = s@.subrange(lo as int, n as int);
        assert forall|j: int| hi - lo <= j < t.len() implies is_white_space(#[trigger] t[j]) by {
            assert(t[j] == s@[j + lo]);
        }
        if hi > lo {
            assert(t[hi - lo - 1] == s@[hi - 1]);
        }
        lemma_trim_end_take(t, hi - lo);
        assert(t.subrange(0, hi - lo) =~= s@.subrange(lo as int, hi as int));
        if lo == hi {
            assert forall|j: int| 0 <= j < s@.len() implies is_white_space(#[trigger] s@[j]) by {
                if j >= hi {
                } else {
                }
            }
        } else {
            assert(!is_white_space(s@[lo as int]));
        }
    }
    (lo, hi)
}

/// Whether two texts are equal.
pub fn str_equal(a: &str, b: &str) -> (r: bool)
    ensures
        r == (a@ == b@),
{
    let n = a.unicode_len();
    let m = b.unicode_len();
    if n != m {
        return false;
    }
    let mut i: usize = 0;
    while i < n
        invariant
            n as int == a@.len(),
            m as int == b@.len(),
            n == m,
            0 <= i <= n,
            forall|j: int| 0 <= j < i ==> a@[j] == b@[j],
        decreases n - i,
    {
        if a.get_char(i) != b.get_char(i) {
            return false;
        }
        i = i + 1;
    }
    assert(a@ =~= b@);
    true
}

/// The ASCII upper case of a text (`str::to_ascii_uppercase`): letters `a` to `z` become
/// `A` to `Z`, every other character is kept.
#[verifier::external_body]
pub(crate) fn to_ascii_uppercase(s: &str) -> (r: String)
    ensures
        r@ == ascii_uppercase_seq(s@),
{
    s.to_ascii_uppercase()
}

/// Builds a string from bytes with `String::from_utf8`, which the standard library documents
/// to succeed exactly when the bytes are valid UTF-8, the string then holding those bytes.
/// Claimed: `Some` exactly for valid UTF-8, with the characters that the bytes encode.
#[verifier::external_body]
pub(crate) fn string_from_utf8(bytes: Vec<u8>) -> (r: Option<String>)
    ensures
        r is Some <==> valid_utf8(bytes@),
        r matches Some(s) ==> s@ == decode_utf8(bytes@),
{
    String::from_utf8(bytes).ok()
}

} // verus!
