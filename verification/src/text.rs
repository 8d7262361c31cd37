//! Character-level text helpers shared by the domain modules.
//!
//! Text is handled as sequences of Unicode scalar values. The whitespace and
//! control-character classes are the Unicode `White_Space` property and the
//! `Cc` general category, which is what `char::is_whitespace` and
//! `char::is_control` decide.
use vstd::prelude::*;
use vstd::utf8::*;

verus! {

broadcast use vstd::utf8::char_is_scalar;

/// Unicode `White_Space`: the characters `char::is_whitespace` accepts.
pub open spec fn is_ws(c: char) -> bool {
    let u = c as u32;
    ||| 0x09 <= u <= 0x0D
    ||| u == 0x20
    ||| u == 0x85
    ||| u == 0xA0
    ||| u == 0x1680
    ||| 0x2000 <= u <= 0x200A
    ||| u == 0x2028
    ||| u == 0x2029
    ||| u == 0x202F
    ||| u == 0x205F
    ||| u == 0x3000
}

/// Unicode general category `Cc`: the characters `char::is_control` accepts.
pub open spec fn is_ctrl(c: char) -> bool {
    let u = c as u32;
    u <= 0x1F || (0x7F <= u <= 0x9F)
}

/// Decides Unicode `White_Space` membership.
pub fn is_whitespace(c: char) -> (b: bool)
    ensures
        b == is_ws(c),
{
    let u = c as u32;
    (0x09 <= u && u <= 0x0D) || u == 0x20 || u == 0x85 || u == 0xA0 || u == 0x1680 || (0x2000 <= u
        && u <= 0x200A) || u == 0x2028 || u == 0x2029 || u == 0x202F || u == 0x205F || u == 0x3000
}

/// Decides membership of the `Cc` general category.
pub fn is_control(c: char) -> (b: bool)
    ensures
        b == is_ctrl(c),
{
    let u = c as u32;
    u <= 0x1F || (0x7F <= u && u <= 0x9F)
}

/// The number of whitespace characters at the start of `s`.
pub open spec fn leading_ws(s: Seq<char>) -> nat
    decreases s.len(),
{
    if s.len() > 0 && is_ws(s[0]) {
        1 + leading_ws(s.drop_first())
    } else {
        0
    }
}

/// The number of whitespace characters at the end of `s`.
pub open spec fn trailing_ws(s: Seq<char>) -> nat
    decreases s.len(),
{
    if s.len() > 0 && is_ws(s.last()) {
        1 + trailing_ws(s.drop_last())
    } else {
        0
    }
}

/// `s` without its leading whitespace (`str::trim_start`).
pub open spec fn trim_start(s: Seq<char>) -> Seq<char> {
    s.skip(leading_ws(s) as int)
}

/// `s` without its trailing whitespace (`str::trim_end`).
pub open spec fn trim_end(s: Seq<char>) -> Seq<char> {
    s.take(s.len() - trailing_ws(s))
}

/// `s` without leading and trailing whitespace (`str::trim`).
pub open spec fn trim(s: Seq<char>) -> Seq<char> {
    trim_end(trim_start(s))
}

/// Whether every character of `s` is whitespace.
pub open spec fn all_ws(s: Seq<char>) -> bool {
    forall|i: int| 0 <= i < s.len() ==> is_ws(#[trigger] s[i])
}

/// The leading-whitespace count is the first non-whitespace index.
pub proof fn lemma_leading_ws(s: Seq<char>, i: int)
    requires
        0 <= i <= s.len(),
        forall|k: int| 0 <= k < i ==> is_ws(#[trigger] s[k]),
        i == s.len() || !is_ws(s[i]),
    ensures
        leading_ws(s) == i,
    decreases i,
{
    if i > 0 {
        let t = s.drop_first();
        assert forall|k: int| 0 <= k < i - 1 implies is_ws(#[trigger] t[k]) by {
            assert(t[k] == s[k + 1]);
        }
        if i - 1 < t.len() {
            assert(t[i - 1] == s[i]);
        }
        lemma_leading_ws(t, i - 1);
    }
}

/// The trailing-whitespace count is the distance from the last
/// non-whitespace character to the end.
pub proof fn lemma_trailing_ws(s: Seq<char>, j: int)
    requires
        0 <= j <= s.len(),
        forall|k: int| j <= k < s.len() ==> is_ws(#[trigger] s[k]),
        j == 0 || !is_ws(s[j - 1]),
    ensures
        trailing_ws(s) == s.len() - j,
    decreases s.len() - j,
{
    if j < s.len() {
        let t = s.drop_last();
        assert forall|k: int| j <= k < t.len() implies is_ws(#[trigger] t[k]) by {
            assert(t[k] == s[k]);
        }
        if j > 0 {
            assert(t[j - 1] == s[j - 1]);
        }
        lemma_trailing_ws(t, j);
    }
}

/// Trimming removes everything exactly when the text is all whitespace.
pub proof fn lemma_trim_empty(s: Seq<char>)
    ensures
        (trim(s).len() == 0) == all_ws(s),
{
    let (a, b) = trim_bounds_spec(s);
    lemma_trim_bounds(s);
    if trim(s).len() == 0 {
        assert forall|i: int| 0 <= i < s.len() implies is_ws(#[trigger] s[i]) by {
            if i >= a {
                assert(b <= a);
            }
        }
    } else {
        assert(!is_ws(s[a]));
    }
}

/// The bounds `(a, b)` with `trim(s) == s[a..b]`.
pub open spec fn trim_bounds_spec(s: Seq<char>) -> (int, int) {
    let a = leading_ws(s) as int;
    let b = a + (s.len() - a - trailing_ws(s.skip(a)));
    (a, b)
}

/// `trim(s)` is the slice between the first and one past the last
/// non-whitespace character; when `s` is all whitespace it is empty.
pub proof fn lemma_trim_bounds(s: Seq<char>)
    ensures
        ({
            let (a, b) = trim_bounds_spec(s);
            &&& 0 <= a <= b <= s.len()
            &&& trim(s) =~= s.subrange(a, b)
            &&& forall|k: int| 0 <= k < a ==> is_ws(#[trigger] s[k])
            &&& forall|k: int| b <= k < s.len() ==> is_ws(#[trigger] s[k])
            &&& a < b ==> !is_ws(s[a]) && !is_ws(s[b - 1])
            &&& a == b ==> b == s.len()
        }),
{
    lemma_leading_ws_props(s);
    let a = leading_ws(s) as int;
    let t = s.skip(a);
    lemma_trailing_ws_props(t);
    let j = t.len() - trailing_ws(t);
    assert forall|k: int| a + j <= k < s.len() implies is_ws(#[trigger] s[k]) by {
        assert(s[k] == t[k - a]);
    }
    if j > 0 {
        assert(s[a + j - 1] == t[j - 1]);
    }
    if j == 0 && a < s.len() {
        assert(t[0] == s[a]);
    }
}

/// Characterises `leading_ws` by the first non-whitespace index.
pub proof fn lemma_leading_ws_props(s: Seq<char>)
    ensures
        leading_ws(s) <= s.len(),
        forall|k: int| 0 <= k < leading_ws(s) ==> is_ws(#[trigger] s[k]),
        leading_ws(s) < s.len() ==> !is_ws(s[leading_ws(s) as int]),
    decreases s.len(),
{
    if s.len() > 0 && is_ws(s[0]) {
        let t = s.drop_first();
        lemma_leading_ws_props(t);
        assert forall|k: int| 0 <= k < leading_ws(s) implies is_ws(#[trigger] s[k]) by {
            if k > 0 {
                assert(s[k] == t[k - 1]);
            }
        }
        if leading_ws(s) < s.len() {
            assert(s[leading_ws(s) as int] == t[leading_ws(t) as int]);
        }
    }
}

/// Characterises `trailing_ws` by the last non-whitespace index.
pub proof fn lemma_trailing_ws_props(s: Seq<char>)
    ensures
        trailing_ws(s) <= s.len(),
        forall|k: int| s.len() - trailing_ws(s) <= k < s.len() ==> is_ws(#[trigger] s[k]),
        trailing_ws(s) < s.len() ==> !is_ws(s[s.len() - trailing_ws(s) - 1]),
    decreases s.len(),
{
    if s.len() > 0 && is_ws(s.last()) {
        let t = s.drop_last();
        lemma_trailing_ws_props(t);
        assert forall|k: int| s.len() - trailing_ws(s) <= k < s.len() implies is_ws(
            #[trigger] s[k],
        ) by {
            if k < s.len() - 1 {
                assert(s[k] == t[k]);
            }
        }
        if trailing_ws(s) < s.len() {
            assert(s[s.len() - trailing_ws(s) - 1] == t[t.len() - trailing_ws(t) - 1]);
        }
    }
}

/// Trimming twice is trimming once.
pub proof fn lemma_trim_idempotent(s: Seq<char>)
    ensures
        trim(trim(s)) == trim(s),
{
    lemma_trim_bounds(s);
    let t = trim(s);
    if t.len() > 0 {
        let (a, b) = trim_bounds_spec(s);
        assert(t[0] == s[a]);
        assert(t[t.len() - 1] == s[b - 1]);
        lemma_leading_ws(t, 0);
        lemma_trailing_ws(t, t.len() as int);
        assert(trim_start(t) =~= t);
        assert(trim(t) =~= t);
    } else {
        assert(trim(t) =~= t);
    }
}

/// An element of a pushed sequence is the pushed one or an earlier one.
pub proof fn lemma_push_contains<A>(s: Seq<A>, c: A, x: A)
    ensures
        s.push(c).contains(x) == (s.contains(x) || c == x),
{
    if s.push(c).contains(x) {
        let k = choose|k: int| 0 <= k < s.push(c).len() && s.push(c)[k] == x;
        if k < s.len() {
            assert(s[k] == x);
        }
    }
    if s.contains(x) {
        let k = choose|k: int| 0 <= k < s.len() && s[k] == x;
        assert(s.push(c)[k] == x);
    }
    if c == x {
        assert(s.push(c)[s.len() as int] == x);
    }
}

/// Returns `(a, b)` such that `trim(s@[lo..hi]) == s@[a..b]`.
pub fn trim_range(s: &[char], lo: usize, hi: usize) -> (r: (usize, usize))
    requires
        lo <= hi <= s@.len(),
    ensures
        r.0 as int == lo + trim_bounds_spec(s@.subrange(lo as int, hi as int)).0,
        r.1 as int == lo + trim_bounds_spec(s@.subrange(lo as int, hi as int)).1,
        lo <= r.0 <= r.1 <= hi,
        trim(s@.subrange(lo as int, hi as int)) =~= s@.subrange(r.0 as int, r.1 as int),
        r.0 - lo == leading_ws(s@.subrange(lo as int, hi as int)),
{
    let ghost sub = s@.subrange(lo as int, hi as int);
    proof {
        lemma_trim_bounds(sub);
    }
    let mut a: usize = lo;
    while a < hi && is_whitespace(s[a])
        invariant
            lo <= a <= hi <= s@.len(),
            sub == s@.subrange(lo as int, hi as int),
            forall|k: int| 0 <= k < a - lo ==> is_ws(#[trigger] sub[k]),
        decreases hi - a,
    {
        assert(sub[a - lo] == s@[a as int]);
        a = a + 1;
    }
    proof {
        if a < hi {
            assert(sub[a - lo] == s@[a as int]);
        }
        lemma_leading_ws(sub, a - lo);
    }
    let mut b: usize = hi;
    while b > a && is_whitespace(s[b - 1])
        invariant
            lo <= a <= b <= hi <= s@.len(),
            sub == s@.subrange(lo as int, hi as int),
            forall|k: int| b - lo <= k < sub.len() ==> is_ws(#[trigger] sub[k]),
            a - lo == leading_ws(sub),
            trim_bounds_spec(sub).0 == a - lo,
            forall|k: int| trim_bounds_spec(sub).1 <= k < sub.len() ==> is_ws(#[trigger] sub[k]),
            a - lo < trim_bounds_spec(sub).1 ==> !is_ws(sub[trim_bounds_spec(sub).1 - 1]),
            trim_bounds_spec(sub).1 <= b - lo,
        decreases b,
    {
        assert(sub[b - 1 - lo] == s@[b - 1]);
        b = b - 1;
    }
    proof {
        if b > a {
            assert(sub[b - 1 - lo] == s@[b - 1]);
        }
        assert(s@.subrange(a as int, b as int) =~= sub.subrange(a - lo, b - lo));
    }
    (a, b)
}

/// Returns `(a, b)` such that `trim(s@) == s@[a..b]`.
pub fn trim_bounds(s: &[char]) -> (r: (usize, usize))
    ensures
        r.0 as int == trim_bounds_spec(s@).0,
        r.1 as int == trim_bounds_spec(s@).1,
        r.0 <= r.1 <= s@.len(),
        trim(s@) =~= s@.subrange(r.0 as int, r.1 as int),
{
    proof {
        assert(s@.subrange(0, s@.len() as int) =~= s@);
    }
    trim_range(s, 0, s.len())
}

/// Appends one character (`String::push`).
#[verifier::external_body]
pub(crate) fn push_char(s: &mut String, c: char)
    ensures
        final(s)@ == old(s)@.push(c),
{
    s.push(c);
}

/// The string holding `s[lo..hi]`.
pub fn string_of(s: &[char], lo: usize, hi: usize) -> (out: String)
    requires
        lo <= hi <= s@.len(),
    ensures
        out@ == s@.subrange(lo as int, hi as int),
{
    let mut out = String::new();
    let mut i: usize = lo;
    while i < hi
        invariant
            lo <= i <= hi <= s@.len(),
            out@ == s@.subrange(lo as int, i as int),
        decreases hi - i,
    {
        push_char(&mut out, s[i]);
        i = i + 1;
    }
    out
}

/// The characters of `s`, in order.
pub fn chars_of(s: &str) -> (out: Vec<char>)
    ensures
        out@ == s@,
{
    let mut out: Vec<char> = Vec::new();
    for c in iter: s.chars()
        invariant
            out@ == iter.seq().take(iter.index() as int),
    {
        out.push(c);
    }
    out
}

/// `s` with surrounding whitespace removed, as an owned string.
pub fn trimmed(s: &str) -> (out: String)
    ensures
        out@ == trim(s@),
{
    let cs = chars_of(s);
    let (a, b) = trim_bounds(cs.as_slice());
    string_of(cs.as_slice(), a, b)
}

/// Whether two strings hold the same characters.
pub fn str_eq(a: &str, b: &str) -> (r: bool)
    ensures
        r == (a@ == b@),
{
    let x = chars_of(a);
    let y = chars_of(b);
    chars_eq(x.as_slice(), y.as_slice())
}

/// Whether two character slices are equal.
pub fn chars_eq(x: &[char], y: &[char]) -> (r: bool)
    ensures
        r == (x@ == y@),
{
    if x.len() != y.len() {
        return false;
    }
    let mut i: usize = 0;
    while i < x.len()
        invariant
            x@.len() == y@.len(),
            0 <= i <= x@.len(),
            forall|k: int| 0 <= k < i ==> x@[k] == y@[k],
        decreases x@.len() - i,
    {
        if x[i] != y[i] {
            return false;
        }
        i = i + 1;
    }
    assert(x@ =~= y@);
    true
}


/// The number of bytes in the UTF-8 encoding of `c`.
pub open spec fn utf8_width(c: char) -> nat {
    let u = c as u32;
    if u < 0x80 {
        1
    } else if u < 0x800 {
        2
    } else if u < 0x10000 {
        3
    } else {
        4
    }
}

/// The number of bytes in the UTF-8 encoding of `s`.
pub open spec fn byte_len(s: Seq<char>) -> nat {
    encode_utf8(s).len()
}

/// Encoding a sequence extended by one character appends that character's
/// encoding.
pub proof fn lemma_encode_push(s: Seq<char>, c: char)
    ensures
        encode_utf8(s.push(c)) =~= encode_utf8(s) + encode_scalar(c as u32),
        encode_scalar(c as u32).len() == utf8_width(c),
    decreases s.len(),
{
    if s.len() > 0 {
        assert(s.push(c).drop_first() =~= s.drop_first().push(c));
        lemma_encode_push(s.drop_first(), c);
        assert(s.push(c)[0] == s[0]);
        let a = encode_scalar(s[0] as u32);
        let b = encode_utf8(s.drop_first());
        let d = encode_scalar(c as u32);
        assert(encode_utf8(s.push(c)) == a + encode_utf8(s.push(c).drop_first()));
        assert(a + (b + d) =~= (a + b) + d);
    } else {
        assert(s.push(c).drop_first() =~= Seq::<char>::empty());
        assert(encode_utf8(s) =~= Seq::<u8>::empty());
        assert(encode_utf8(s.push(c)) == encode_scalar(c as u32) + encode_utf8(
            Seq::<char>::empty(),
        ));
    }
}

/// The byte length of a prefix grows by the width of the next character.
pub proof fn lemma_byte_len_step(s: Seq<char>, i: int)
    requires
        0 <= i < s.len(),
    ensures
        byte_len(s.take(i + 1)) == byte_len(s.take(i)) + utf8_width(s[i]),
{
    assert(s.take(i + 1) =~= s.take(i).push(s[i]));
    lemma_encode_push(s.take(i), s[i]);
}

/// Byte lengths of prefixes never decrease.
pub proof fn lemma_byte_len_mono(s: Seq<char>, i: int, j: int)
    requires
        0 <= i <= j <= s.len(),
    ensures
        byte_len(s.take(i)) <= byte_len(s.take(j)),
    decreases j - i,
{
    if i < j {
        lemma_byte_len_step(s, j - 1);
        lemma_byte_len_mono(s, i, j - 1);
    }
}

/// The UTF-8 width of `c`.
pub fn char_width(c: char) -> (w: usize)
    ensures
        w == utf8_width(c),
{
    let u = c as u32;
    if u < 0x80 {
        1
    } else if u < 0x800 {
        2
    } else if u < 0x10000 {
        3
    } else {
        4
    }
}

/// The byte offset of every character position of `t`, plus the total:
/// `offs[i]` is the length of the UTF-8 encoding of `t[..i]`.
pub fn byte_offsets(t: &[char]) -> (offs: Vec<usize>)
    requires
        byte_len(t@) <= usize::MAX,
    ensures
        offs@.len() == t@.len() + 1,
        forall|i: int| 0 <= i <= t@.len() ==> #[trigger] offs@[i] == byte_len(t@.take(i)),
{
    let mut offs: Vec<usize> = Vec::new();
    offs.push(0);
    assert(t@.take(0) =~= Seq::<char>::empty());
    let mut i: usize = 0;
    while i < t.len()
        invariant
            0 <= i <= t@.len(),
            byte_len(t@) <= usize::MAX,
            offs@.len() == i + 1,
            forall|k: int| 0 <= k <= i ==> #[trigger] offs@[k] == byte_len(t@.take(k)),
        decreases t@.len() - i,
    {
        proof {
            lemma_byte_len_step(t@, i as int);
            lemma_byte_len_mono(t@, i + 1, t@.len() as int);
            assert(t@.take(t@.len() as int) =~= t@);
        }
        let next = offs[i] + char_width(t[i]);
        offs.push(next);
        i = i + 1;
    }
    offs
}

/// The text `String::from_utf8_lossy` makes of `bytes`: valid UTF-8 is
/// decoded and every invalid sequence becomes U+FFFD.
pub uninterp spec fn lossy_utf8(bytes: Seq<u8>) -> Seq<char>;

/// Calls `String::from_utf8_lossy` and takes ownership of the text.
///
/// Claims: the text is the named lossy decoding of `bytes`; for valid UTF-8
/// it is the plain decoding (as the std documentation states); and its UTF-8
/// encoding, like that of every `String` held in memory, has a length that
/// fits in `usize`.
#[verifier::external_body]
pub(crate) fn utf8_lossy(bytes: &[u8]) -> (s: String)
    ensures
        s@ == lossy_utf8(bytes@),
        valid_utf8(bytes@) ==> s@ == decode_utf8(bytes@),
        byte_len(s@) <= usize::MAX,
{
    String::from_utf8_lossy(bytes).into_owned()
}
} // verus!
