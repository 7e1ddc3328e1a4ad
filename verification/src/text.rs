//! Text helpers: character access, splitting, trimming, decimal and
//! hexadecimal parsing and formatting. Everything works on the characters of a
//! string (its view), so the contracts speak of `Seq<char>`.

use vstd::prelude::*;

verus! {

/// Append one character to a string.
///
/// Trusted: calls `String::push`, whose documentation says it appends the
/// character to the end of the string. The contract claims exactly that.
#[verifier::external_body]
pub(crate) fn push_char(s: &mut String, c: char)
    ensures
        final(s)@ == old(s)@.push(c),
{
    s.push(c)
}

/// What lossy UTF-8 decoding makes of bytes that are not valid UTF-8.
pub uninterp spec fn lossy_utf8(bytes: Seq<u8>) -> Seq<char>;

/// The characters lossy UTF-8 decoding gives for `bytes`: their decoding when
/// they are valid UTF-8.
pub open spec fn utf8_text(bytes: Seq<u8>) -> Seq<char> {
    if vstd::utf8::valid_utf8(bytes) {
        vstd::utf8::decode_utf8(bytes)
    } else {
        lossy_utf8(bytes)
    }
}

/// Decode bytes as UTF-8, replacing invalid sequences.
///
/// Trusted: calls `String::from_utf8_lossy`, whose documentation says valid
/// UTF-8 is decoded as is and each invalid sequence becomes U+FFFD. The
/// contract claims the decoding for valid input and, for any other input,
/// only that the result depends on the bytes alone.
#[verifier::external_body]
pub(crate) fn utf8_lossy(bytes: &[u8]) -> (s: String)
    ensures
        s@ == (if vstd::utf8::valid_utf8(bytes@) {
            vstd::utf8::decode_utf8(bytes@)
        } else {
            lossy_utf8(bytes@)
        }),
{
    String::from_utf8_lossy(bytes).into_owned()
}

/// Append every character of `cs`.
pub fn push_chars(s: &mut String, cs: &[char])
    ensures
        final(s)@ == old(s)@ + cs@,
{
    let mut i: usize = 0;
    while i < cs.len()
        invariant
            i <= cs@.len(),
            s@ == old(s)@ + cs@.take(i as int),
        decreases cs@.len() - i,
    {
        push_char(s, cs[i]);
        i = i + 1;
        assert(cs@.take(i as int) =~= cs@.take(i - 1).push(cs@[i - 1]));
    }
    assert(cs@.take(cs@.len() as int) =~= cs@);
}

/// The characters of a string, in order.
pub fn chars_of(s: &str) -> (v: Vec<char>)
    ensures
        v@ == s@,
{
    let n = s.unicode_len();
    let mut v: Vec<char> = Vec::new();
    let mut i: usize = 0;
    while i < n
        invariant
            i <= n,
            n == s@.len(),
            v@ == s@.take(i as int),
        decreases n - i,
    {
        v.push(s.get_char(i));
        i = i + 1;
        assert(v@ =~= s@.take(i as int));
    }
    assert(s@.take(n as int) =~= s@);
    v
}

/// A string holding exactly the characters `cs`.
pub fn string_of(cs: &[char]) -> (s: String)
    ensures
        s@ == cs@,
{
    let mut s = String::new();
    push_chars(&mut s, cs);
    s
}

// ---------------------------------------------------------------------------
// Splitting and trimming
// ---------------------------------------------------------------------------

/// Index of the first character of `s` at or after `from` that is in `seps`,
/// or `s.len()` if there is none.
pub open spec fn find_sep(s: Seq<char>, seps: Seq<char>, from: int) -> int
    decreases s.len() - from,
{
    if from >= s.len() || from < 0 {
        s.len() as int
    } else if seps.contains(s[from]) {
        from
    } else {
        find_sep(s, seps, from + 1)
    }
}

/// `str::split` on any of `seps`: the pieces between separators, always at
/// least one.
pub open spec fn spec_split(s: Seq<char>, seps: Seq<char>) -> Seq<Seq<char>>
    decreases s.len(),
{
    let k = find_sep(s, seps, 0);
    if k >= s.len() {
        seq![s]
    } else {
        proof {
            lemma_find_sep(s, seps, 0);
        }
        seq![s.take(k)] + spec_split(s.skip(k + 1), seps)
    }
}

pub proof fn lemma_find_sep(s: Seq<char>, seps: Seq<char>, from: int)
    requires
        0 <= from <= s.len(),
    ensures
        from <= find_sep(s, seps, from) <= s.len(),
        find_sep(s, seps, from) < s.len() ==> seps.contains(s[find_sep(s, seps, from)]),
        forall|j: int| from <= j < find_sep(s, seps, from) ==> !seps.contains(#[trigger] s[j]),
    decreases s.len() - from,
{
    if from < s.len() && !seps.contains(s[from]) {
        lemma_find_sep(s, seps, from + 1);
    }
}

fn contains_char(seps: &[char], c: char) -> (b: bool)
    ensures
        b == seps@.contains(c),
{
    let mut i: usize = 0;
    while i < seps.len()
        invariant
            i <= seps@.len(),
            forall|j: int| 0 <= j < i ==> seps@[j] != c,
        decreases seps@.len() - i,
    {
        if seps[i] == c {
            return true;
        }
        i = i + 1;
    }
    false
}

fn find_sep_exec(s: &[char], seps: &[char], from: usize) -> (k: usize)
    requires
        from <= s@.len(),
    ensures
        k == find_sep(s@, seps@, from as int),
{
    let mut i = from;
    while i < s.len()
        invariant
            from <= i <= s@.len(),
            find_sep(s@, seps@, from as int) == find_sep(s@, seps@, i as int),
        decreases s@.len() - i,
    {
        if contains_char(seps, s[i]) {
            return i;
        }
        i = i + 1;
    }
    i
}

fn copy_range(s: &[char], a: usize, b: usize) -> (v: Vec<char>)
    requires
        a <= b <= s@.len(),
    ensures
        v@ == s@.subrange(a as int, b as int),
{
    let mut v: Vec<char> = Vec::new();
    let mut i = a;
    while i < b
        invariant
            a <= i <= b,
            b <= s@.len(),
            v@ == s@.subrange(a as int, i as int),
        decreases b - i,
    {
        v.push(s[i]);
        i = i + 1;
        assert(v@ =~= s@.subrange(a as int, i as int));
    }
    v
}

pub open spec fn views(v: Seq<Vec<char>>) -> Seq<Seq<char>> {
    v.map_values(|x: Vec<char>| x@)
}

/// Split `s` at every character in `seps`.
pub fn split_chars(s: &[char], seps: &[char]) -> (parts: Vec<Vec<char>>)
    ensures
        views(parts@) == spec_split(s@, seps@),
{
    let mut parts: Vec<Vec<char>> = Vec::new();
    let mut start: usize = 0;
    let ghost mut acc: Seq<Seq<char>> = Seq::empty();
    assert(s@.skip(0) =~= s@);
    assert(acc + spec_split(s@, seps@) =~= spec_split(s@, seps@));
    loop
        invariant
            start <= s@.len(),
            views(parts@) == acc,
            acc + spec_split(s@.skip(start as int), seps@) == spec_split(s@, seps@),
        decreases s@.len() - start,
    {
        let ghost rest = s@.skip(start as int);
        let k = find_sep_exec(s, seps, start);
        proof {
            lemma_find_sep(s@, seps@, start as int);
            lemma_find_sep_shift(s@, seps@, start as int);
        }
        let piece = copy_range(s, start, k);
        parts.push(piece);
        if k >= s.len() {
            proof {
                assert(find_sep(rest, seps@, 0) == rest.len());
                assert(rest.take(rest.len() as int) =~= rest);
                assert(piece@ =~= rest);
                assert(views(parts@) =~= acc.push(piece@));
                assert(acc.push(piece@) =~= acc + seq![rest]);
            }
            return parts;
        }
        proof {
            assert(find_sep(rest, seps@, 0) == k - start);
            assert(piece@ =~= rest.take(k - start));
            assert(rest.skip(k - start + 1) =~= s@.skip(k + 1));
            assert(views(parts@) =~= acc.push(piece@));
            assert(acc.push(piece@) + spec_split(s@.skip(k + 1), seps@) =~= acc + (seq![rest.take(k - start)]
                + spec_split(rest.skip(k - start + 1), seps@)));
            acc = acc.push(piece@);
        }
        start = k + 1;
    }
}

proof fn lemma_find_sep_shift(s: Seq<char>, seps: Seq<char>, start: int)
    requires
        0 <= start <= s.len(),
    ensures
        find_sep(s.skip(start), seps, 0) == find_sep(s, seps, start) - start,
{
    lemma_find_sep(s, seps, start);
    lemma_find_sep(s.skip(start), seps, 0);
    let a = find_sep(s.skip(start), seps, 0);
    let b = find_sep(s, seps, start);
    if a + start < b {
        assert(s.skip(start)[a] == s[a + start]);
    } else if a + start > b {
        assert(s.skip(start)[b - start] == s[b]);
    }
}

/// Split at the first `sep`, if there is one.
pub open spec fn spec_split_once(s: Seq<char>, sep: char) -> Option<(Seq<char>, Seq<char>)> {
    let k = find_sep(s, seq![sep], 0);
    if k >= s.len() {
        None
    } else {
        Some((s.take(k), s.skip(k + 1)))
    }
}

pub fn split_once(s: &[char], sep: char) -> (r: Option<(Vec<char>, Vec<char>)>)
    ensures
        match r {
            Some((a, b)) => spec_split_once(s@, sep) == Some((a@, b@)),
            None => spec_split_once(s@, sep) is None,
        },
{
    let seps = [sep];
    assert(seps@ =~= seq![sep]);
    let k = find_sep_exec(s, seps.as_slice(), 0);
    proof { lemma_find_sep(s@, seq![sep], 0); }
    if k >= s.len() {
        None
    } else {
        let a = copy_range(s, 0, k);
        let b = copy_range(s, k + 1, s.len());
        assert(a@ =~= s@.take(k as int));
        assert(b@ =~= s@.skip(k + 1));
        Some((a, b))
    }
}

/// Unicode `White_Space` characters (what `str::trim` removes).
pub open spec fn is_ws(c: char) -> bool {
    let u = c as u32;
    (0x09 <= u <= 0x0D) || u == 0x20 || u == 0x85 || u == 0xA0 || u == 0x1680 || (0x2000 <= u <= 0x200A)
        || u == 0x2028 || u == 0x2029 || u == 0x202F || u == 0x205F || u == 0x3000
}

fn is_ws_exec(c: char) -> (b: bool)
    ensures
        b == is_ws(c),
{
    let u = c as u32;
    (0x09 <= u && u <= 0x0D) || u == 0x20 || u == 0x85 || u == 0xA0 || u == 0x1680 || (0x2000 <= u && u
        <= 0x200A) || u == 0x2028 || u == 0x2029 || u == 0x202F || u == 0x205F || u == 0x3000
}

/// Number of leading whitespace characters.
pub open spec fn lead_ws(s: Seq<char>) -> int
    decreases s.len(),
{
    if s.len() > 0 && is_ws(s[0]) {
        1 + lead_ws(s.drop_first())
    } else {
        0
    }
}

/// Number of trailing whitespace characters.
pub open spec fn trail_ws(s: Seq<char>) -> int
    decreases s.len(),
{
    if s.len() > 0 && is_ws(s.last()) {
        1 + trail_ws(s.drop_last())
    } else {
        0
    }
}

/// `str::trim`: drop leading and trailing whitespace.
pub open spec fn spec_trim(s: Seq<char>) -> Seq<char> {
    let a = lead_ws(s);
    let t = s.skip(a);
    t.take(t.len() - trail_ws(t))
}

proof fn lemma_lead_ws(s: Seq<char>, i: int)
    requires
        0 <= i <= s.len(),
        forall|j: int| 0 <= j < i ==> is_ws(#[trigger] s[j]),
    ensures
        lead_ws(s) == i + lead_ws(s.skip(i)),
    decreases i,
{
    if i > 0 {
        assert(is_ws(s[0]));
        lemma_lead_ws(s.drop_first(), i - 1);
        assert(s.drop_first().skip(i - 1) =~= s.skip(i));
    } else {
        assert(s.skip(0) =~= s);
    }
}

proof fn lemma_trail_ws(s: Seq<char>, i: int)
    requires
        0 <= i <= s.len(),
        forall|j: int| s.len() - i <= j < s.len() ==> is_ws(#[trigger] s[j]),
    ensures
        trail_ws(s) == i + trail_ws(s.take(s.len() - i)),
    decreases i,
{
    if i > 0 {
        assert(is_ws(s.last()));
        lemma_trail_ws(s.drop_last(), i - 1);
        assert(s.drop_last().take(s.drop_last().len() - (i - 1)) =~= s.take(s.len() - i));
    } else {
        assert(s.take(s.len() as int) =~= s);
    }
}

pub fn trim(s: &[char]) -> (t: Vec<char>)
    ensures
        t@ == spec_trim(s@),
{
    let mut a: usize = 0;
    while a < s.len() && is_ws_exec(s[a])
        invariant
            a <= s@.len(),
            forall|j: int| 0 <= j < a ==> is_ws(#[trigger] s@[j]),
        decreases s@.len() - a,
    {
        a = a + 1;
    }
    proof {
        lemma_lead_ws(s@, a as int);
        if a < s@.len() {
            assert(s@.skip(a as int)[0] == s@[a as int]);
        }
        assert(lead_ws(s@.skip(a as int)) == 0);
    }
    let mut b: usize = s.len();
    let ghost t = s@.skip(a as int);
    while b > a && is_ws_exec(s[b - 1])
        invariant
            a <= b <= s@.len(),
            t == s@.skip(a as int),
            forall|j: int| b <= j < s@.len() ==> is_ws(#[trigger] s@[j]),
        decreases b - a,
    {
        b = b - 1;
    }
    proof {
        let i = (s@.len() - b) as int;
        assert forall|j: int| t.len() - i <= j < t.len() implies is_ws(#[trigger] t[j]) by {
            assert(t[j] == s@[j + a]);
        }
        lemma_trail_ws(t, i);
        let u = t.take(t.len() - i);
        if u.len() > 0 {
            assert(u.last() == s@[b - 1]);
        }
        assert(trail_ws(u) == 0);
    }
    let r = copy_range(s, a, b);
    assert(r@ =~= spec_trim(s@));
    r
}

// ---------------------------------------------------------------------------
// Number parsing
// ---------------------------------------------------------------------------

pub open spec fn is_digit(c: char) -> bool {
    '0' <= c <= '9'
}

pub open spec fn digit_val(c: char) -> int {
    c as int - '0' as int
}

/// The value of a run of decimal digits (0 for the empty run).
pub open spec fn digits_value(s: Seq<char>) -> int
    decreases s.len(),
{
    if s.len() == 0 {
        0
    } else {
        digits_value(s.drop_last()) * 10 + digit_val(s.last())
    }
}

pub open spec fn all_digits(s: Seq<char>) -> bool {
    forall|i: int| 0 <= i < s.len() ==> is_digit(#[trigger] s[i])
}

/// What an unsigned integer `FromStr` accepts: an optional `+` then at least
/// one decimal digit. The value, if the text is well formed.
pub open spec fn spec_dec(s: Seq<char>) -> Option<int> {
    let d = if s.len() > 0 && s[0] == '+' { s.drop_first() } else { s };
    if d.len() > 0 && all_digits(d) {
        Some(digits_value(d))
    } else {
        None
    }
}

proof fn lemma_digits_value_nonneg(s: Seq<char>)
    requires
        all_digits(s),
    ensures
        digits_value(s) >= 0,
    decreases s.len(),
{
    if s.len() > 0 {
        lemma_digits_value_nonneg(s.drop_last());
    }
}

proof fn lemma_digits_value_mono(s: Seq<char>, i: int)
    requires
        all_digits(s),
        0 <= i <= s.len(),
    ensures
        digits_value(s.take(i)) <= digits_value(s),
    decreases s.len() - i,
{
    if i < s.len() {
        lemma_digits_value_mono(s.drop_last(), i);
        assert(s.drop_last().take(i) =~= s.take(i));
        lemma_digits_value_nonneg(s.drop_last());
    } else {
        assert(s.take(i) =~= s);
    }
}

/// Parse a decimal number as an unsigned `FromStr` would, and accept it only
/// if it is at most `max`.
pub fn parse_dec(s: &[char], max: u64) -> (r: Option<u64>)
    ensures
        r == (match spec_dec(s@) {
            Some(v) => if v <= max { Some(v as u64) } else { None::<u64> },
            None => None::<u64>,
        }),
        r matches Some(x) ==> spec_dec(s@) == Some(x as int) && x <= max,
{
    let start: usize = if s.len() > 0 && s[0] == '+' { 1 } else { 0 };
    let ghost d = if s@.len() > 0 && s@[0] == '+' { s@.drop_first() } else { s@ };
    assert(d =~= s@.skip(start as int));
    if start >= s.len() {
        return None;
    }
    let mut v: u64 = 0;
    let mut i = start;
    let mut over = false;
    while i < s.len()
        invariant
            start <= i <= s@.len(),
            d == s@.skip(start as int),
            d == (if s@.len() > 0 && s@[0] == '+' { s@.drop_first() } else { s@ }),
            all_digits(d.take(i - start)),
            !over ==> v == digits_value(d.take(i - start)) && v <= max,
            over ==> digits_value(d.take(i - start)) > max,
        decreases s@.len() - i,
    {
        let c = s[i];
        if !('0' <= c && c <= '9') {
            assert(d[i - start] == c);
            assert(!is_digit(d[i - start]));
            assert(!all_digits(d));
            return None;
        }
        let dv = (c as u32 - '0' as u32) as u64;
        proof {
            assert(d.take(i + 1 - start).drop_last() =~= d.take(i - start));
            assert(d.take(i + 1 - start).last() == c);
            lemma_digits_value_nonneg(d.take(i - start));
        }
        if !over {
            if (v as u128) * 10 + (dv as u128) > (max as u128) {
                over = true;
            } else {
                v = v * 10 + dv;
            }
        }
        i = i + 1;
        assert(all_digits(d.take(i - start)));
    }
    proof {
        assert(d.take(d.len() as int) =~= d);
    }
    if over {
        None
    } else {
        Some(v)
    }
}

pub open spec fn is_hex_digit(c: char) -> bool {
    ('0' <= c <= '9') || ('a' <= c <= 'f') || ('A' <= c <= 'F')
}

pub open spec fn hex_val(c: char) -> int {
    if '0' <= c <= '9' {
        c as int - '0' as int
    } else if 'a' <= c <= 'f' {
        c as int - 'a' as int + 10
    } else {
        c as int - 'A' as int + 10
    }
}

pub open spec fn hex_value(s: Seq<char>) -> int
    decreases s.len(),
{
    if s.len() == 0 {
        0
    } else {
        hex_value(s.drop_last()) * 16 + hex_val(s.last())
    }
}

/// What `u8::from_str_radix(_, 16)` accepts: an optional `+`, then at least
/// one hex digit, with a value below 256.
pub open spec fn all_hex(s: Seq<char>) -> bool {
    forall|i: int| 0 <= i < s.len() ==> is_hex_digit(#[trigger] s[i])
}

pub open spec fn spec_hex_u8(s: Seq<char>) -> Option<u8> {
    let d = if s.len() > 0 && s[0] == '+' { s.drop_first() } else { s };
    if d.len() > 0 && all_hex(d) && hex_value(d) <= 255 {
        Some(hex_value(d) as u8)
    } else {
        None
    }
}

proof fn lemma_hex_value_nonneg(s: Seq<char>)
    requires
        forall|i: int| 0 <= i < s.len() ==> is_hex_digit(#[trigger] s[i]),
    ensures
        hex_value(s) >= 0,
    decreases s.len(),
{
    if s.len() > 0 {
        lemma_hex_value_nonneg(s.drop_last());
    }
}

pub fn parse_hex_u8(s: &[char]) -> (r: Option<u8>)
    ensures
        r == spec_hex_u8(s@),
{
    let start: usize = if s.len() > 0 && s[0] == '+' { 1 } else { 0 };
    let ghost d = if s@.len() > 0 && s@[0] == '+' { s@.drop_first() } else { s@ };
    assert(d =~= s@.skip(start as int));
    if start >= s.len() {
        return None;
    }
    let mut v: u32 = 0;
    let mut over = false;
    let mut i = start;
    while i < s.len()
        invariant
            start <= i <= s@.len(),
            d == s@.skip(start as int),
            d == (if s@.len() > 0 && s@[0] == '+' { s@.drop_first() } else { s@ }),
            forall|j: int| 0 <= j < i - start ==> is_hex_digit(#[trigger] d[j]),
            !over ==> v == hex_value(d.take(i - start)) && v <= 255,
            over ==> hex_value(d.take(i - start)) > 255,
        decreases s@.len() - i,
    {
        let c = s[i];
        let dv: u32 = if '0' <= c && c <= '9' {
            c as u32 - '0' as u32
        } else if 'a' <= c && c <= 'f' {
            c as u32 - 'a' as u32 + 10
        } else if 'A' <= c && c <= 'F' {
            c as u32 - 'A' as u32 + 10
        } else {
            assert(d[i - start] == c);
            assert(!is_hex_digit(d[i - start]));
            assert(!all_hex(d));
            return None;
        };
        proof {
            assert(d.take(i + 1 - start).drop_last() =~= d.take(i - start));
            assert(d.take(i + 1 - start).last() == c);
            assert forall|j: int| 0 <= j < i - start implies is_hex_digit(#[trigger] d.take(i - start)[j]) by {
                assert(d.take(i - start)[j] == d[j]);
            }
            lemma_hex_value_nonneg(d.take(i - start));
        }
        if !over {
            if v * 16 + dv > 255 {
                over = true;
            } else {
                v = v * 16 + dv;
            }
        }
        i = i + 1;
    }
    proof {
        assert(d.take(d.len() as int) =~= d);
    }
    if over {
        None
    } else {
        Some(v as u8)
    }
}

// ---------------------------------------------------------------------------
// Number formatting
// ---------------------------------------------------------------------------

pub open spec fn digit_char(d: int) -> char {
    (d + 48) as char
}

/// Decimal digits of `n`, no leading zeros ("0" for zero).
pub open spec fn dec_str(n: nat) -> Seq<char>
    decreases n,
{
    if n < 10 {
        seq![digit_char(n as int)]
    } else {
        dec_str(n / 10).push(digit_char((n % 10) as int))
    }
}

pub open spec fn hex_char(d: int) -> char {
    if d < 10 {
        (d + 48) as char
    } else {
        (d + 87) as char
    }
}

/// Lowercase hex digits of `n`, no leading zeros ("0" for zero).
pub open spec fn hex_str(n: nat) -> Seq<char>
    decreases n,
{
    if n < 16 {
        seq![hex_char(n as int)]
    } else {
        hex_str(n / 16).push(hex_char((n % 16) as int))
    }
}

/// Two lowercase hex digits (`{:02x}`).
pub open spec fn hex2(b: u8) -> Seq<char> {
    seq![hex_char((b / 16) as int), hex_char((b % 16) as int)]
}

fn digit_exec(d: u64) -> (c: char)
    requires
        d < 10,
    ensures
        c == digit_char(d as int),
{
    ((d + 48) as u8) as char
}

fn hex_exec(d: u64) -> (c: char)
    requires
        d < 16,
    ensures
        c == hex_char(d as int),
{
    if d < 10 {
        ((d + 48) as u8) as char
    } else {
        ((d + 87) as u8) as char
    }
}

/// Append the decimal form of `v`.
pub fn push_dec(s: &mut String, v: u64)
    ensures
        final(s)@ == old(s)@ + dec_str(v as nat),
    decreases v,
{
    if v >= 10 {
        push_dec(s, v / 10);
    }
    push_char(s, digit_exec(v % 10));
    assert(old(s)@ + dec_str(v as nat) =~= if v >= 10 {
        (old(s)@ + dec_str((v / 10) as nat)).push(digit_char((v % 10) as int))
    } else {
        old(s)@.push(digit_char((v % 10) as int))
    });
}

/// Append the lowercase hex form of `v`.
pub fn push_hex(s: &mut String, v: u64)
    ensures
        final(s)@ == old(s)@ + hex_str(v as nat),
    decreases v,
{
    if v >= 16 {
        push_hex(s, v / 16);
    }
    push_char(s, hex_exec(v % 16));
    assert(old(s)@ + hex_str(v as nat) =~= if v >= 16 {
        (old(s)@ + hex_str((v / 16) as nat)).push(hex_char((v % 16) as int))
    } else {
        old(s)@.push(hex_char((v % 16) as int))
    });
}

/// Append every character of `t`.
pub fn push_str(s: &mut String, t: &str)
    ensures
        final(s)@ == old(s)@ + t@,
{
    let cs = chars_of(t);
    push_chars(s, cs.as_slice());
}

/// Decimal form of a signed value: a minus sign before the magnitude of a
/// negative one.
pub open spec fn idec_str(v: int) -> Seq<char> {
    if v < 0 {
        seq!['-'] + dec_str((-v) as nat)
    } else {
        dec_str(v as nat)
    }
}

/// Append the decimal form of a signed value.
pub fn push_i64(s: &mut String, v: i64)
    ensures
        final(s)@ == old(s)@ + idec_str(v as int),
{
    if v < 0 {
        push_char(s, '-');
        let m: u64 = if v == i64::MIN { 9223372036854775808u64 } else { (-v) as u64 };
        push_dec(s, m);
        assert(old(s)@.push('-') + dec_str(m as nat) =~= old(s)@ + idec_str(v as int));
    } else {
        push_dec(s, v as u64);
    }
}

/// Append exactly two lowercase hex digits of `b`.
pub fn push_hex2(s: &mut String, b: u8)
    ensures
        final(s)@ == old(s)@ + hex2(b),
{
    push_char(s, hex_exec((b / 16) as u64));
    push_char(s, hex_exec((b % 16) as u64));
    assert(old(s)@.push(hex_char((b / 16) as int)).push(hex_char((b % 16) as int)) =~= old(s)@ + hex2(b));
}

/// Formatting then parsing a number gives it back.
pub proof fn lemma_dec_roundtrip(n: nat)
    ensures
        all_digits(dec_str(n)),
        dec_str(n).len() > 0,
        digits_value(dec_str(n)) == n,
        dec_str(n)[0] != '+',
        spec_dec(dec_str(n)) == Some(n as int),
    decreases n,
{
    let d = (n % 10) as int;
    assert(digit_char(d) as int == d + 48);
    if n >= 10 {
        lemma_dec_roundtrip(n / 10);
        assert(dec_str(n).drop_last() =~= dec_str(n / 10));
        assert(dec_str(n)[0] == dec_str(n / 10)[0]);
        assert(dec_str(n).last() == digit_char(d));
        assert(digits_value(dec_str(n)) == digits_value(dec_str(n / 10)) * 10 + digit_val(digit_char(d)));
        assert(all_digits(dec_str(n)));
    } else {
        assert(dec_str(n).drop_last() =~= Seq::<char>::empty());
        assert(digits_value(dec_str(n)) == digits_value(Seq::<char>::empty()) * 10 + digit_val(digit_char(d)));
    }
    assert(dec_str(n).len() == 0 || dec_str(n)[0] != '+');
}


// ---------------------------------------------------------------------------
// Field widths
// ---------------------------------------------------------------------------

/// `s` filled with `fill` to at least `width` characters, on the left when
/// `right` is set, else on the right. A longer `s` is kept whole.
pub open spec fn spec_align(s: Seq<char>, width: nat, fill: char, right: bool) -> Seq<char> {
    if s.len() >= width {
        s
    } else if right {
        Seq::new((width - s.len()) as nat, |i: int| fill) + s
    } else {
        s + Seq::new((width - s.len()) as nat, |i: int| fill)
    }
}

fn push_fill(out: &mut String, fill: char, n: usize)
    ensures
        final(out)@ == old(out)@ + Seq::new(n as nat, |i: int| fill),
{
    let mut i: usize = 0;
    while i < n
        invariant
            i <= n,
            out@ == old(out)@ + Seq::new(i as nat, |k: int| fill),
        decreases n - i,
    {
        push_char(out, fill);
        i = i + 1;
        assert(out@ =~= old(out)@ + Seq::new(i as nat, |k: int| fill));
    }
}

/// Append `s` filled to at least `width` characters.
pub fn push_aligned(out: &mut String, s: &[char], width: usize, fill: char, right: bool)
    ensures
        final(out)@ == old(out)@ + spec_align(s@, width as nat, fill, right),
{
    let ghost o = out@;
    if s.len() >= width {
        push_chars(out, s);
    } else if right {
        push_fill(out, fill, width - s.len());
        push_chars(out, s);
        assert(out@ =~= o + spec_align(s@, width as nat, fill, right));
    } else {
        push_chars(out, s);
        push_fill(out, fill, width - s.len());
        assert(out@ =~= o + spec_align(s@, width as nat, fill, right));
    }
}

/// The decimal digits of `v`.
pub fn dec_digits(v: u64) -> (cs: Vec<char>)
    ensures
        cs@ == dec_str(v as nat),
{
    let mut s = String::new();
    push_dec(&mut s, v);
    chars_of(s.as_str())
}

/// The lowercase hex digits of `v`.
pub fn hex_digits(v: u64) -> (cs: Vec<char>)
    ensures
        cs@ == hex_str(v as nat),
{
    let mut s = String::new();
    push_hex(&mut s, v);
    chars_of(s.as_str())
}

/// `0x` then the hex digits of `v` zero-filled to `digits` (`{:#0Nx}` with
/// `N = digits + 2`).
pub open spec fn prefixed_hex(v: nat, digits: nat) -> Seq<char> {
    "0x"@ + spec_align(hex_str(v), digits, '0', true)
}

/// Append `v` as `0x` and at least `digits` zero-filled hex digits.
pub fn push_prefixed_hex(out: &mut String, v: u64, digits: usize)
    ensures
        final(out)@ == old(out)@ + prefixed_hex(v as nat, digits as nat),
{
    let ghost o = out@;
    push_str(out, "0x");
    let h = hex_digits(v);
    push_aligned(out, h.as_slice(), digits, '0', true);
    assert(out@ =~= o + prefixed_hex(v as nat, digits as nat));
}

} // verus!
