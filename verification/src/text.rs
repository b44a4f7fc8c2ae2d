//! Character-level text handling: Unicode whitespace trimming, lower-casing,
//! ASCII case-insensitive comparison and the recognition of numbered list items.
use vstd::prelude::*;
use vstd::utf8::{encode_scalar, encode_utf8};

verus! {

/// The characters of the Unicode `White_Space` property, the whitespace of `str::trim`.
pub open spec fn is_white_space(c: char) -> bool {
    let u = c as u32;
    ||| 0x09 <= u <= 0x0d
    ||| u == 0x20
    ||| u == 0x85
    ||| u == 0xa0
    ||| u == 0x1680
    ||| 0x2000 <= u <= 0x200a
    ||| u == 0x2028
    ||| u == 0x2029
    ||| u == 0x202f
    ||| u == 0x205f
    ||| u == 0x3000
}

/// Whether a character is Unicode whitespace (`char::is_whitespace`).
pub fn char_is_white_space(c: char) -> (r: bool)
    ensures
        r == is_white_space(c),
{
    let u = c as u32;
    (0x09 <= u && u <= 0x0d) || u == 0x20 || u == 0x85 || u == 0xa0 || u == 0x1680 || (0x2000 <= u
        && u <= 0x200a) || u == 0x2028 || u == 0x2029 || u == 0x202f || u == 0x205f || u == 0x3000
}

/// `s[a..b]` is what remains of `s` once leading and trailing whitespace is removed.
pub open spec fn trim_bounds(s: Seq<char>, a: int, b: int) -> bool {
    &&& 0 <= a <= b <= s.len()
    &&& forall|i: int| 0 <= i < a ==> is_white_space(#[trigger] s[i])
    &&& forall|i: int| b <= i < s.len() ==> is_white_space(#[trigger] s[i])
    &&& a < b ==> !is_white_space(s[a]) && !is_white_space(s[b - 1])
}

/// `s` without its leading and trailing Unicode whitespace.
pub open spec fn trim_seq(s: Seq<char>) -> Seq<char> {
    let ab = choose|ab: (int, int)| trim_bounds(s, ab.0, ab.1);
    s.subrange(ab.0, ab.1)
}

/// Any bounds that trim `s` cut out the same text.
pub proof fn lemma_trim_bounds_agree(s: Seq<char>, a1: int, b1: int, a2: int, b2: int)
    requires
        trim_bounds(s, a1, b1),
        trim_bounds(s, a2, b2),
    ensures
        s.subrange(a1, b1) == s.subrange(a2, b2),
{
    if a1 < b1 {
        assert(a1 >= a2) by {
            if a1 < a2 {
                assert(is_white_space(s[a1]));
            }
        }
        assert(a2 < b2) by {
            if a2 == b2 {
                assert(is_white_space(s[a1]));
            }
        }
        assert(a2 >= a1) by {
            if a2 < a1 {
                assert(is_white_space(s[a2]));
            }
        }
        assert(b1 <= b2) by {
            if b1 > b2 {
                assert(is_white_space(s[b1 - 1]));
            }
        }
        assert(b2 <= b1) by {
            if b2 > b1 {
                assert(is_white_space(s[b2 - 1]));
            }
        }
    } else if a2 < b2 {
        assert(is_white_space(s[a2]));
    } else {
        assert(s.subrange(a1, b1) =~= s.subrange(a2, b2));
    }
}

/// Trimming with bounds that are known to trim gives `trim_seq`.
pub proof fn lemma_trim_seq_from_bounds(s: Seq<char>, a: int, b: int)
    requires
        trim_bounds(s, a, b),
    ensures
        trim_seq(s) == s.subrange(a, b),
{
    let ab = choose|ab: (int, int)| trim_bounds(s, ab.0, ab.1);
    assert(trim_bounds(s, (a, b).0, (a, b).1));
    lemma_trim_bounds_agree(s, ab.0, ab.1, a, b);
}

/// `String::push`: appends one character at the end of the string.
#[verifier::external_body]
pub(crate) fn push_char(s: &mut String, c: char)
    ensures
        final(s)@ == old(s)@.push(c),
{
    s.push(c);
}

/// The characters of a string slice, in order.
pub fn chars_of(s: &str) -> (v: Vec<char>)
    ensures
        v@ == s@,
{
    let mut v: Vec<char> = Vec::new();
    for c in it: s.chars()
        invariant
            v@ == it.seq().take(it.index() as int),
            it.seq() == s@,
    {
        v.push(c);
    }
    v
}

/// A new string holding `chars[from..to]`.
pub fn string_from_range(chars: &Vec<char>, from: usize, to: usize) -> (r: String)
    requires
        from <= to <= chars.len(),
    ensures
        r@ == chars@.subrange(from as int, to as int),
{
    let mut r = String::new();
    let mut i = from;
    while i < to
        invariant
            from <= i <= to <= chars.len(),
            r@ == chars@.subrange(from as int, i as int),
        decreases to - i,
    {
        push_char(&mut r, chars[i]);
        assert(chars@.subrange(from as int, i + 1) =~= chars@.subrange(from as int, i as int).push(
            chars@[i as int],
        ));
        i = i + 1;
    }
    r
}

/// The bounds, inside `chars[from..to]`, of that range without its surrounding whitespace.
pub fn trim_range(chars: &Vec<char>, from: usize, to: usize) -> (r: (usize, usize))
    requires
        from <= to <= chars.len(),
    ensures
        from <= r.0 <= r.1 <= to,
        trim_bounds(
            chars@.subrange(from as int, to as int),
            r.0 - from,
            r.1 - from,
        ),
        trim_seq(chars@.subrange(from as int, to as int)) == chars@.subrange(r.0 as int, r.1 as int),
{
    let ghost s = chars@.subrange(from as int, to as int);
    let mut a = from;
    while a < to && char_is_white_space(chars[a])
        invariant
            from <= a <= to <= chars.len(),
            s == chars@.subrange(from as int, to as int),
            forall|i: int| 0 <= i < a - from ==> is_white_space(#[trigger] s[i]),
        decreases to - a,
    {
        a = a + 1;
    }
    let mut b = to;
    while b > a && char_is_white_space(chars[b - 1])
        invariant
            from <= a <= b <= to <= chars.len(),
            s == chars@.subrange(from as int, to as int),
            forall|i: int| b - from <= i < s.len() ==> is_white_space(#[trigger] s[i]),
            a < to ==> !is_white_space(chars@[a as int]),
        decreases b - a,
    {
        b = b - 1;
    }
    proof {
        assert(trim_bounds(s, a - from, b - from));
        lemma_trim_seq_from_bounds(s, a - from, b - from);
        assert(s.subrange(a - from, b - from) =~= chars@.subrange(a as int, b as int));
    }
    (a, b)
}

/// `str::trim`: the slice without leading and trailing Unicode whitespace.
pub fn trim(s: &str) -> (r: &str)
    ensures
        r@ == trim_seq(s@),
{
    let chars = chars_of(s);
    let (a, b) = trim_range(&chars, 0, chars.len());
    assert(chars@.subrange(0, chars@.len() as int) =~= chars@);
    s.substring_char(a, b)
}

/// The Unicode lower-case mapping of a text, as `str::to_lowercase` computes it.
pub uninterp spec fn lowercase(s: Seq<char>) -> Seq<char>;

/// `str::to_lowercase`, whose result depends on the text alone (it follows the
/// Unicode case tables and no locale). Nothing more is claimed of it.
#[verifier::external_body]
pub(crate) fn to_lowercase(s: &str) -> (r: String)
    ensures
        r@ == lowercase(s@),
{
    s.to_lowercase()
}

/// The code point of the ASCII lower-case of a character; other characters are kept.
pub open spec fn ascii_lower(c: char) -> u32 {
    if 'A' <= c <= 'Z' {
        ((c as u32) + 32) as u32
    } else {
        c as u32
    }
}

/// Two texts are equal once ASCII letters are lower-cased (`str::eq_ignore_ascii_case`).
pub open spec fn eq_ignore_ascii_case_spec(a: Seq<char>, b: Seq<char>) -> bool {
    a.len() == b.len() && forall|i: int| 0 <= i < a.len() ==> ascii_lower(#[trigger] a[i])
        == ascii_lower(b[i])
}

fn ascii_lower_exec(c: char) -> (r: u32)
    ensures
        r == ascii_lower(c),
{
    if 'A' <= c && c <= 'Z' {
        c as u32 + 32
    } else {
        c as u32
    }
}

/// Compares two texts ignoring the case of ASCII letters.
pub fn eq_ignore_ascii_case(a: &str, b: &str) -> (r: bool)
    ensures
        r == eq_ignore_ascii_case_spec(a@, b@),
{
    let ca = chars_of(a);
    let cb = chars_of(b);
    if ca.len() != cb.len() {
        return false;
    }
    let mut i: usize = 0;
    while i < ca.len()
        invariant
            ca@ == a@,
            cb@ == b@,
            ca.len() == cb.len(),
            0 <= i <= ca.len(),
            forall|j: int| 0 <= j < i ==> ascii_lower(#[trigger] a@[j]) == ascii_lower(b@[j]),
        decreases ca.len() - i,
    {
        if ascii_lower_exec(ca[i]) != ascii_lower_exec(cb[i]) {
            return false;
        }
        i = i + 1;
    }
    true
}

/// Whether two texts are equal.
pub fn same_text(a: &str, b: &str) -> (r: bool)
    ensures
        r == (a@ == b@),
{
    a.to_owned() == b.to_owned()
}

pub open spec fn is_ascii_digit(c: char) -> bool {
    '0' <= c <= '9'
}

/// `k` is the position of the first character of `s` that is not an ASCII digit.
pub open spec fn is_digit_run_end(s: Seq<char>, k: int) -> bool {
    &&& 0 <= k < s.len()
    &&& !is_ascii_digit(s[k])
    &&& forall|j: int| 0 <= j < k ==> is_ascii_digit(#[trigger] s[j])
}

/// The text of a numbered list item such as `3) text` or `12. text`: a run of
/// ASCII digits, then `.` or `)`, then the item, trimmed and not empty.
pub open spec fn numbered_item(s: Seq<char>) -> Option<Seq<char>> {
    if exists|k: int| is_digit_run_end(s, k) {
        let k = choose|k: int| is_digit_run_end(s, k);
        if k == 0 || !(s[k] == '.' || s[k] == ')') {
            None
        } else {
            let rest = trim_seq(s.subrange(k + 1, s.len() as int));
            if rest.len() == 0 {
                None
            } else {
                Some(rest)
            }
        }
    } else {
        None
    }
}

/// The bounds of the numbered list item held by `chars[from..to]`, if it is one.
pub fn numbered_item_range(chars: &Vec<char>, from: usize, to: usize) -> (r: Option<
    (usize, usize),
>)
    requires
        from <= to <= chars.len(),
    ensures
        match r {
            Some((x, y)) => {
                &&& from <= x <= y <= to
                &&& numbered_item(chars@.subrange(from as int, to as int)) == Some(
                    chars@.subrange(x as int, y as int),
                )
            },
            None => numbered_item(chars@.subrange(from as int, to as int)) is None,
        },
{
    let ghost s = chars@.subrange(from as int, to as int);
    let mut k = from;
    while k < to && '0' <= chars[k] && chars[k] <= '9'
        invariant
            from <= k <= to <= chars.len(),
            s == chars@.subrange(from as int, to as int),
            forall|j: int| 0 <= j < k - from ==> is_ascii_digit(#[trigger] s[j]),
        decreases to - k,
    {
        k = k + 1;
    }
    if k == to {
        proof {
            assert forall|kk: int| !is_digit_run_end(s, kk) by {
                if 0 <= kk < s.len() {
                    assert(is_ascii_digit(s[kk]));
                }
            }
        }
        return None;
    }
    proof {
        assert(is_digit_run_end(s, k - from));
        let kc = choose|kk: int| is_digit_run_end(s, kk);
        assert(kc == k - from) by {
            if kc < k - from {
                assert(is_ascii_digit(s[kc]));
            }
            if kc > k - from {
                assert(is_ascii_digit(s[k - from]));
            }
        }
    }
    if k == from || !(chars[k] == '.' || chars[k] == ')') {
        return None;
    }
    let (x, y) = trim_range(chars, k + 1, to);
    proof {
        assert(s.subrange(k + 1 - from, s.len() as int) =~= chars@.subrange(k + 1, to as int));
    }
    if x == y {
        None
    } else {
        Some((x, y))
    }
}

/// `numbered_list_item`: the item text of a numbered list line, trimmed.
pub fn numbered_list_item(line: &str) -> (r: Option<&str>)
    ensures
        match r {
            Some(item) => numbered_item(line@) == Some(item@),
            None => numbered_item(line@) is None,
        },
{
    let chars = chars_of(line);
    assert(chars@.subrange(0, chars@.len() as int) =~= line@);
    match numbered_item_range(&chars, 0, chars.len()) {
        Some((x, y)) => Some(line.substring_char(x, y)),
        None => None,
    }
}

/// Number of bytes of the UTF-8 encoding of a character.
pub open spec fn utf8_width(c: char) -> nat {
    let v = c as u32;
    if v <= 0x7f {
        1
    } else if v <= 0x7ff {
        2
    } else if v <= 0xffff {
        3
    } else {
        4
    }
}

proof fn lemma_encode_scalar_len(c: char)
    ensures
        encode_scalar(c as u32).len() == utf8_width(c),
{
}

proof fn lemma_encode_utf8_push(s: Seq<char>, c: char)
    ensures
        encode_utf8(s.push(c)) == encode_utf8(s) + encode_scalar(c as u32),
    decreases s.len(),
{
    if s.len() == 0 {
        assert(s.push(c).drop_first() =~= Seq::<char>::empty());
        assert(encode_utf8(Seq::<char>::empty()) =~= Seq::<u8>::empty());
        assert(encode_utf8(s.push(c)) =~= encode_scalar(c as u32) + encode_utf8(
            Seq::<char>::empty(),
        ));
        assert(encode_utf8(s) =~= Seq::<u8>::empty());
        assert(encode_utf8(s.push(c)) =~= encode_utf8(s) + encode_scalar(c as u32));
    } else {
        assert(s.push(c).drop_first() =~= s.drop_first().push(c));
        lemma_encode_utf8_push(s.drop_first(), c);
        assert(encode_utf8(s.push(c)) =~= encode_scalar(s[0] as u32) + (encode_utf8(
            s.drop_first(),
        ) + encode_scalar(c as u32)));
    }
}

/// Whether the UTF-8 encoding of `s` (what `str::len` counts) is longer than `limit` bytes.
pub fn utf8_len_exceeds(s: &str, limit: usize) -> (r: bool)
    ensures
        r == (encode_utf8(s@).len() > limit),
{
    let chars = chars_of(s);
    let mut total: usize = 0;
    let mut i: usize = 0;
    assert(chars@.take(0) =~= Seq::<char>::empty());
    assert(encode_utf8(Seq::<char>::empty()) =~= Seq::<u8>::empty());
    while i < chars.len()
        invariant
            chars@ == s@,
            0 <= i <= chars.len(),
            total == encode_utf8(chars@.take(i as int)).len(),
            total <= limit,
        decreases chars.len() - i,
    {
        let c = chars[i];
        let v = c as u32;
        let width: usize = if v <= 0x7f {
            1
        } else if v <= 0x7ff {
            2
        } else if v <= 0xffff {
            3
        } else {
            4
        };
        proof {
            assert(chars@.take(i + 1) =~= chars@.take(i as int).push(c));
            lemma_encode_utf8_push(chars@.take(i as int), c);
            lemma_encode_scalar_len(c);
        }
        if width > limit - total {
            proof {
                assert(chars@ =~= chars@.take(i + 1) + chars@.skip(i + 1));
                lemma_encode_utf8_prefix_len(chars@.take(i + 1), chars@.skip(i + 1));
            }
            return true;
        }
        total = total + width;
        i = i + 1;
    }
    assert(chars@.take(i as int) =~= chars@);
    false
}

proof fn lemma_encode_utf8_prefix_len(a: Seq<char>, b: Seq<char>)
    ensures
        encode_utf8(a + b).len() >= encode_utf8(a).len(),
    decreases b.len(),
{
    if b.len() > 0 {
        assert(a + b =~= (a + b.drop_last()).push(b.last()));
        lemma_encode_utf8_push(a + b.drop_last(), b.last());
        lemma_encode_utf8_prefix_len(a, b.drop_last());
    } else {
        assert(a + b =~= a);
    }
}

} // verus!
