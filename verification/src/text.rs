//! Text helpers: decimal and hexadecimal rendering, and the whitespace and
//! comma rules used to read a forwarded client address.

use vstd::prelude::*;

verus! {

/// `String::push`: appends `c` to `s`.
#[verifier::external_body]
pub(crate) fn push_char(s: &mut String, c: char)
    ensures
        final(s)@ == old(s)@.push(c),
{
    s.push(c)
}

/// The character of a digit below sixteen: `0`-`9`, then `a`-`f`.
pub open spec fn digit_char(d: int) -> char {
    if d < 10 {
        (48 + d) as char
    } else {
        (87 + d) as char
    }
}

fn digit_char_exec(d: u8) -> (c: char)
    requires
        d < 16,
    ensures
        c == digit_char(d as int),
{
    if d < 10 {
        (48u8 + d) as char
    } else {
        (87u8 + d) as char
    }
}

/// The decimal representation of `n`, without sign or leading zeros.
pub open spec fn decimal(n: nat) -> Seq<char>
    decreases n,
{
    if n < 10 {
        seq![digit_char(n as int)]
    } else {
        decimal(n / 10).push(digit_char((n % 10) as int))
    }
}

fn push_decimal(s: &mut String, n: u64)
    ensures
        final(s)@ == old(s)@ + decimal(n as nat),
    decreases n,
{
    if n >= 10 {
        push_decimal(s, n / 10);
    }
    push_char(s, digit_char_exec((n % 10) as u8));
    assert(decimal(n as nat) == if n < 10 { seq![digit_char(n as int)] } else {
        decimal((n / 10) as nat).push(digit_char((n % 10) as int))
    });
}

/// Renders `n` in decimal.
pub fn decimal_string(n: u64) -> (s: String)
    ensures
        s@ == decimal(n as nat),
{
    let mut s = String::new();
    push_decimal(&mut s, n);
    assert(s@ =~= decimal(n as nat));
    s
}

/// Appends `t` to `s`.
pub fn push_text(s: &mut String, t: &str)
    ensures
        final(s)@ == old(s)@ + t@,
{
    let n = t.unicode_len();
    let mut i: usize = 0;
    while i < n
        invariant
            n == t@.len(),
            i <= n,
            s@ == old(s)@ + t@.take(i as int),
        decreases n - i,
    {
        let c = t.get_char(i);
        push_char(s, c);
        assert(t@.take(i + 1) =~= t@.take(i as int).push(c));
        i = i + 1;
    }
    assert(t@.take(n as int) =~= t@);
}

/// Lower-case hexadecimal rendering of bytes, two digits per byte.
pub open spec fn lower_hex(bytes: Seq<u8>) -> Seq<char>
    decreases bytes.len(),
{
    if bytes.len() == 0 {
        Seq::empty()
    } else {
        lower_hex(bytes.drop_last()).push(digit_char((bytes.last() / 16) as int)).push(digit_char((bytes.last() % 16) as int))
    }
}

/// Renders bytes in lower-case hexadecimal, two digits per byte.
pub fn hex_encode(bytes: &[u8]) -> (s: String)
    ensures
        s@ == lower_hex(bytes@),
{
    let mut s = String::new();
    let mut i: usize = 0;
    while i < bytes.len()
        invariant
            i <= bytes@.len(),
            s@ == lower_hex(bytes@.take(i as int)),
        decreases bytes@.len() - i,
    {
        let b = bytes[i];
        push_char(&mut s, digit_char_exec(b / 16));
        push_char(&mut s, digit_char_exec(b % 16));
        assert(bytes@.take(i + 1).drop_last() =~= bytes@.take(i as int));
        i = i + 1;
    }
    assert(bytes@.take(bytes@.len() as int) =~= bytes@);
    s
}

/// The characters that `char::is_whitespace` accepts: those with the Unicode
/// `White_Space` property.
pub open spec fn is_white_space(c: char) -> bool {
    let n = c as u32;
    (9 <= n <= 13) || n == 32 || n == 0x85 || n == 0xa0 || n == 0x1680 || (0x2000 <= n <= 0x200a)
        || n == 0x2028 || n == 0x2029 || n == 0x202f || n == 0x205f || n == 0x3000
}

fn white_space(c: char) -> (b: bool)
    ensures
        b == is_white_space(c),
{
    let n = c as u32;
    (9 <= n && n <= 13) || n == 32 || n == 0x85 || n == 0xa0 || n == 0x1680 || (0x2000 <= n && n <= 0x200a)
        || n == 0x2028 || n == 0x2029 || n == 0x202f || n == 0x205f || n == 0x3000
}

/// The index of the first comma at or after `from`, or the length of `s`.
pub open spec fn comma_at_or_after(s: Seq<char>, from: int) -> int
    decreases s.len() - from,
{
    if from >= s.len() || s[from] == ',' {
        from
    } else {
        comma_at_or_after(s, from + 1)
    }
}

/// The text before the first comma (all of it where there is none).
pub open spec fn first_segment(s: Seq<char>) -> Seq<char> {
    s.take(comma_at_or_after(s, 0))
}

/// The first index at or after `from` whose character is not white space,
/// or the length of `s`.
pub open spec fn skip_white(s: Seq<char>, from: int) -> int
    decreases s.len() - from,
{
    if from < s.len() && is_white_space(s[from]) {
        skip_white(s, from + 1)
    } else {
        from
    }
}

/// Moves `end` down past the white space that precedes it, stopping at `start`.
pub open spec fn skip_white_back(s: Seq<char>, start: int, end: int) -> int
    decreases end,
{
    if end > start && end > 0 && is_white_space(s[end - 1]) {
        skip_white_back(s, start, end - 1)
    } else {
        end
    }
}

/// `s` without white space at either end, as `str::trim` gives it.
pub open spec fn trimmed(s: Seq<char>) -> Seq<char> {
    let start = skip_white(s, 0);
    s.subrange(start, skip_white_back(s, start, s.len() as int))
}

/// The client address a request is counted under: the first entry of its
/// `X-Forwarded-For` header, trimmed, where the header is present and
/// readable; else the address of the peer.
pub open spec fn client_key_of(forwarded: Option<Seq<char>>, peer: Seq<char>) -> Seq<char> {
    match forwarded {
        Some(h) => trimmed(first_segment(h)),
        None => peer,
    }
}

/// Picks the key a request is rate limited under (see `client_key_of`).
pub fn client_key(forwarded: Option<&str>, peer: &str) -> (key: String)
    ensures
        key@ == client_key_of(
            match forwarded {
                Some(h) => Some(h@),
                None => None,
            },
            peer@,
        ),
{
    match forwarded {
        None => peer.to_owned(),
        Some(h) => {
            let n = h.unicode_len();
            let mut end: usize = 0;
            while end < n && h.get_char(end) != ','
                invariant
                    n == h@.len(),
                    end <= n,
                    comma_at_or_after(h@, end as int) == comma_at_or_after(h@, 0),
                decreases n - end,
            {
                end = end + 1;
            }
            let ghost seg = first_segment(h@);
            assert(seg =~= h@.take(end as int));
            let mut start: usize = 0;
            while start < end && white_space(h.get_char(start))
                invariant
                    n == h@.len(),
                    end <= n,
                    start <= end,
                    seg == h@.take(end as int),
                    skip_white(seg, start as int) == skip_white(seg, 0),
                decreases end - start,
            {
                start = start + 1;
            }
            let mut stop: usize = end;
            while stop > start && white_space(h.get_char(stop - 1))
                invariant
                    n == h@.len(),
                    end <= n,
                    start <= stop <= end,
                    seg == h@.take(end as int),
                    skip_white(seg, 0) == start,
                    skip_white_back(seg, start as int, stop as int) == skip_white_back(seg, start as int, end as int),
                decreases stop,
            {
                stop = stop - 1;
            }
            let piece = h.substring_char(start, stop);
            assert(piece@ =~= trimmed(seg));
            piece.to_owned()
        },
    }
}

/// Whether `c` is a lower-case hexadecimal digit: `0`-`9` or `a`-`f`.
pub open spec fn is_lower_hex_char(c: char) -> bool {
    ('0' <= c && c <= '9') || ('a' <= c && c <= 'f')
}

/// Each digit below sixteen has its own character, a lower-case hex digit.
pub proof fn lemma_digit_char(a: int, b: int)
    requires
        0 <= a < 16,
        0 <= b < 16,
    ensures
        is_lower_hex_char(digit_char(a)),
        digit_char(a) == digit_char(b) ==> a == b,
{
    assert(digit_char(a) as int == if a < 10 { 48 + a } else { 87 + a });
    assert(digit_char(b) as int == if b < 10 { 48 + b } else { 87 + b });
}

/// Hex rendering has two characters per byte, all lower-case hex digits.
pub proof fn lemma_lower_hex_shape(a: Seq<u8>)
    ensures
        lower_hex(a).len() == 2 * a.len(),
        forall|i: int| 0 <= i < lower_hex(a).len() ==> is_lower_hex_char(#[trigger] lower_hex(a)[i]),
    decreases a.len(),
{
    if a.len() > 0 {
        let x = a.last();
        lemma_lower_hex_shape(a.drop_last());
        lemma_digit_char((x / 16) as int, (x % 16) as int);
        lemma_digit_char((x % 16) as int, (x / 16) as int);
        let la = lower_hex(a);
        let pa = lower_hex(a.drop_last());
        assert forall|i: int| 0 <= i < la.len() implies is_lower_hex_char(#[trigger] la[i]) by {
            if i < pa.len() {
                assert(la[i] == pa[i]);
            }
        }
    }
}

/// Hex rendering tells bytes apart: distinct byte strings render to
/// distinct text.
pub proof fn law_lower_hex_injective(a: Seq<u8>, b: Seq<u8>)
    requires
        lower_hex(a) == lower_hex(b),
    ensures
        a == b,
    decreases a.len(),
{
    lemma_lower_hex_shape(a);
    lemma_lower_hex_shape(b);
    if a.len() == 0 {
        assert(a =~= b);
    } else {
        let x = a.last();
        let y = b.last();
        let la = lower_hex(a);
        let pa = lower_hex(a.drop_last());
        let pb = lower_hex(b.drop_last());
        assert(la[la.len() - 2] == digit_char((x / 16) as int));
        assert(la[la.len() - 1] == digit_char((x % 16) as int));
        assert(la[la.len() - 2] == digit_char((y / 16) as int));
        assert(la[la.len() - 1] == digit_char((y % 16) as int));
        lemma_digit_char((x / 16) as int, (y / 16) as int);
        lemma_digit_char((x % 16) as int, (y % 16) as int);
        assert(x == y);
        lemma_lower_hex_shape(a.drop_last());
        lemma_lower_hex_shape(b.drop_last());
        assert(pa =~= la.subrange(0, la.len() - 2));
        assert(pb =~= la.subrange(0, la.len() - 2));
        law_lower_hex_injective(a.drop_last(), b.drop_last());
        assert(a =~= a.drop_last().push(x));
        assert(b =~= b.drop_last().push(y));
    }
}

proof fn lemma_comma_at_or_after(s: Seq<char>, from: int)
    requires
        0 <= from <= s.len(),
    ensures
        from <= comma_at_or_after(s, from) <= s.len(),
        forall|i: int| from <= i < comma_at_or_after(s, from) ==> s[i] != ',',
        comma_at_or_after(s, from) == s.len() || s[comma_at_or_after(s, from)] == ',',
    decreases s.len() - from,
{
    if from < s.len() && s[from] != ',' {
        lemma_comma_at_or_after(s, from + 1);
    }
}

proof fn lemma_skip_white(s: Seq<char>, from: int)
    requires
        0 <= from <= s.len(),
    ensures
        from <= skip_white(s, from) <= s.len(),
        forall|i: int| from <= i < skip_white(s, from) ==> is_white_space(s[i]),
        skip_white(s, from) == s.len() || !is_white_space(s[skip_white(s, from)]),
    decreases s.len() - from,
{
    if from < s.len() && is_white_space(s[from]) {
        lemma_skip_white(s, from + 1);
    }
}

proof fn lemma_skip_white_back(s: Seq<char>, start: int, end: int)
    requires
        0 <= start <= end <= s.len(),
    ensures
        start <= skip_white_back(s, start, end) <= end,
        forall|i: int| skip_white_back(s, start, end) <= i < end ==> is_white_space(s[i]),
        skip_white_back(s, start, end) == start || !is_white_space(s[skip_white_back(s, start, end) - 1]),
    decreases end,
{
    if end > start && end > 0 && is_white_space(s[end - 1]) {
        lemma_skip_white_back(s, start, end - 1);
    }
}

/// `key` is the first entry of header `h`, trimmed, where that entry ends at
/// `e` and the key starts at `a` (see `law_client_key_is_first_entry_trimmed`).
pub open spec fn is_trimmed_first_entry(h: Seq<char>, key: Seq<char>, e: int, a: int) -> bool {
    &&& 0 <= a && a + key.len() <= e && e <= h.len()
    &&& (e == h.len() || h[e] == ',')
    &&& forall|i: int| 0 <= i < e ==> h[i] != ','
    &&& key == h.subrange(a, a + key.len())
    &&& forall|i: int| 0 <= i < a ==> is_white_space(h[i])
    &&& forall|i: int| a + key.len() <= i < e ==> is_white_space(h[i])
    &&& key.len() > 0 ==> !is_white_space(key[0]) && !is_white_space(key[key.len() - 1])
}

/// The key of a request with an `X-Forwarded-For` header is its first entry,
/// trimmed: there is an end `e` of that entry (the header's first comma, or
/// its end; no comma comes before it) and a start `a`, such that the key is
/// the text from `a` on, lies before `e`, has only white space before it
/// and between it and `e`, and neither starts nor ends with white space.
/// Without the header the key is the peer's address.
pub proof fn law_client_key_is_first_entry_trimmed(h: Seq<char>, peer: Seq<char>)
    ensures
        client_key_of(None, peer) == peer,
        exists|e: int, a: int| #[trigger] is_trimmed_first_entry(h, client_key_of(Some(h), peer), e, a),
{
    lemma_comma_at_or_after(h, 0);
    let e = comma_at_or_after(h, 0);
    let seg = first_segment(h);
    assert(seg =~= h.subrange(0, e));
    lemma_skip_white(seg, 0);
    let a = skip_white(seg, 0);
    lemma_skip_white_back(seg, a, seg.len() as int);
    let b = skip_white_back(seg, a, seg.len() as int);
    let key = client_key_of(Some(h), peer);
    assert(key =~= seg.subrange(a, b));
    assert(key =~= h.subrange(a, a + key.len()));
    assert forall|i: int| 0 <= i < a implies is_white_space(h[i]) by {
        assert(h[i] == seg[i]);
    }
    assert forall|i: int| a + key.len() <= i < e implies is_white_space(h[i]) by {
        assert(h[i] == seg[i]);
    }
    if key.len() > 0 {
        assert(key[0] == seg[a]);
        assert(key[key.len() - 1] == seg[b - 1]);
    }
    assert(is_trimmed_first_entry(h, key, e, a));
}

} // verus!
