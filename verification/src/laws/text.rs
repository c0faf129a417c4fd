//! Laws on texts, numbers, times and their encodings.

use vstd::arithmetic::power;
use vstd::prelude::*;
use vstd::string::*;
use vstd::utf8;

use crate::encoding;
use crate::encoding::{copy_bytes, decode_text, push_big_endian, unsigned_bits};
use crate::error::{config_error, crypto_error, invalid_request, Error};
use crate::text;
use crate::text::{
    comes_before, contains_char, copy_texts, decimal, is_white_space, join2, join3, list_contains,
    same_bytes, same_text, starts_with, strip_prefix, trim, trim_end_of,
};
use crate::time::{saturating_difference, saturating_sum, unix_timestamp};

verus! {

/// Whether a character is white space.
pub open spec fn white(c: char) -> bool {
    ||| 0x9 <= c as int <= 0xd
    ||| c as int == 0x20
    ||| c as int == 0x85
    ||| c as int == 0xa0
    ||| c as int == 0x1680
    ||| 0x2000 <= c as int <= 0x200a
    ||| 0x2028 <= c as int <= 0x2029
    ||| c as int == 0x202f
    ||| c as int == 0x205f
    ||| c as int == 0x3000
}

/// Whether a text holds nothing but white space.
pub open spec fn all_white(s: Seq<char>) -> bool {
    forall|i: int| 0 <= i < s.len() ==> white(#[trigger] s[i])
}

/// Whether a text neither starts nor ends with white space.
pub open spec fn bare(s: Seq<char>) -> bool {
    s.len() > 0 ==> !white(s[0]) && !white(s.last())
}

pub(crate) proof fn lemma_white(c: char)
    ensures
        text::white_space(c) == white(c),
{
}

/// White space is told by the character's number.
pub proof fn law_is_white_space(c: char, r: bool)
    requires
        call_ensures(is_white_space, (c,), r),
    ensures
        r == white(c),
{
    lemma_white(c);
}

proof fn lemma_white_until(s: Seq<char>) -> (n: int)
    ensures
        0 <= n <= s.len(),
        forall|i: int| 0 <= i < n ==> white(#[trigger] s[i]),
        n < s.len() ==> !white(s[n]),
    decreases s.len(),
{
    if s.len() > 0 && white(s[0]) {
        let m = lemma_white_until(s.drop_first());
        assert forall|i: int| 0 <= i < m + 1 implies white(#[trigger] s[i]) by {
            if i > 0 {
                assert(s.drop_first()[i - 1] == s[i]);
            }
        }
        m + 1
    } else {
        0
    }
}

proof fn lemma_white_from(s: Seq<char>) -> (n: int)
    ensures
        0 <= n <= s.len(),
        forall|i: int| n <= i < s.len() ==> white(#[trigger] s[i]),
        n > 0 ==> !white(s[n - 1]),
    decreases s.len(),
{
    if s.len() > 0 && white(s.last()) {
        let m = lemma_white_from(s.drop_last());
        assert forall|i: int| m <= i < s.len() implies white(#[trigger] s[i]) by {
            if i < s.len() - 1 {
                assert(s.drop_last()[i] == s[i]);
            }
        }
        m
    } else {
        s.len() as int
    }
}

/// What is between white space and has none at its ends is what trimming leaves.
pub proof fn lemma_trimmed_core(before: Seq<char>, core: Seq<char>, behind: Seq<char>)
    requires
        all_white(before),
        all_white(behind),
        bare(core),
    ensures
        text::trimmed(before + core + behind) == core,
{
    let s = before + core + behind;
    if core.len() == 0 {
        assert forall|i: int| 0 <= i < s.len() implies text::white_space(#[trigger] s[i]) by {
            if i < before.len() {
                assert(white(before[i]));
            } else {
                assert(white(behind[i - before.len()]));
            }
        }
        text::lemma_trimmed_start(s, s.len() as int);
        text::lemma_trimmed_end(Seq::<char>::empty(), 0);
        assert(s.skip(s.len() as int) =~= Seq::empty());
        assert(core =~= Seq::empty());
        assert(Seq::<char>::empty().take(0) =~= Seq::empty());
    } else {
        let from = before.len() as int;
        assert forall|i: int| 0 <= i < from implies text::white_space(#[trigger] s[i]) by {
            assert(white(before[i]));
        }
        assert(s[from] == core[0]);
        text::lemma_trimmed_start(s, from);
        let rest = s.skip(from);
        assert(rest =~= core + behind);
        assert forall|i: int| core.len() <= i < rest.len() implies text::white_space(
            #[trigger] rest[i],
        ) by {
            assert(white(behind[i - core.len()]));
        }
        assert(rest[core.len() - 1] == core.last());
        text::lemma_trimmed_end(rest, core.len() as int);
        assert(rest.take(core.len() as int) =~= core);
    }
}

/// Every text is white space, what trimming leaves, and white space, and trimming leaves no white
/// space at either end.
pub proof fn lemma_trimmed_parts(s: Seq<char>) -> (parts: (Seq<char>, Seq<char>))
    ensures
        all_white(parts.0),
        all_white(parts.1),
        bare(text::trimmed(s)),
        s == parts.0 + text::trimmed(s) + parts.1,
{
    let n = lemma_white_until(s);
    let before = s.take(n);
    let rest = s.skip(n);
    let m = lemma_white_from(rest);
    let core = rest.take(m);
    let behind = rest.skip(m);
    assert(s =~= before + core + behind);
    assert forall|i: int| 0 <= i < before.len() implies white(#[trigger] before[i]) by {
        assert(before[i] == s[i]);
    }
    assert forall|i: int| 0 <= i < behind.len() implies white(#[trigger] behind[i]) by {
        assert(behind[i] == rest[m + i]);
    }
    if core.len() > 0 {
        assert(core[0] == s[n]);
        assert(core.last() == rest[m - 1]);
    }
    lemma_trimmed_core(before, core, behind);
    (before, behind)
}

/// Trimming takes the white space from both ends of a text, all of it, and nothing else.
pub proof fn law_trim(s: &str, r: &str)
    requires
        call_ensures(trim, (s,), r),
    ensures
        bare(r@),
        exists|before: Seq<char>, behind: Seq<char>|
            all_white(before) && all_white(behind) && s@ == #[trigger] (before + r@ + behind),
{
    let (before, behind) = lemma_trimmed_parts(s@);
    assert(s@ == before + r@ + behind);
}

/// A text without the characters of a set at its end: the text is this and such characters, and this
/// does not end with one.
pub proof fn lemma_end_trimmed(s: Seq<char>, set: Seq<char>) -> (end: Seq<char>)
    ensures
        s == text::trimmed_end_of(s, set) + end,
        forall|i: int| 0 <= i < end.len() ==> set.contains(#[trigger] end[i]),
        text::trimmed_end_of(s, set).len() > 0 ==> !set.contains(
            text::trimmed_end_of(s, set).last(),
        ),
    decreases s.len(),
{
    if s.len() > 0 && set.contains(s[s.len() - 1]) {
        let shorter = s.drop_last();
        let end = lemma_end_trimmed(shorter, set);
        let kept = text::trimmed_end_of(shorter, set);
        assert(kept + end.push(s.last()) =~= (kept + end).push(s.last()));
        assert(s =~= shorter.push(s.last()));
        end.push(s.last())
    } else {
        Seq::empty()
    }
}

/// What a text has before characters of a set, and does not end with one, is what is left of it.
pub proof fn lemma_end_trimmed_core(core: Seq<char>, end: Seq<char>, set: Seq<char>)
    requires
        core.len() > 0 ==> !set.contains(core.last()),
        forall|i: int| 0 <= i < end.len() ==> set.contains(#[trigger] end[i]),
    ensures
        text::trimmed_end_of(core + end, set) == core,
{
    let s = core + end;
    assert forall|i: int| core.len() <= i < s.len() implies set.contains(#[trigger] s[i]) by {
        assert(s[i] == end[i - core.len()]);
    }
    if core.len() > 0 {
        assert(s[core.len() - 1] == core.last());
    }
    text::lemma_trimmed_end_of(s, set, core.len() as int);
    assert(s.take(core.len() as int) =~= core);
}

/// Trimming the end takes the characters of a set from the end of a text, all of them, and nothing
/// else.
pub proof fn law_trim_end_of(s: &str, set: &str, r: &str)
    requires
        call_ensures(trim_end_of, (s, set), r),
    ensures
        exists|end: Seq<char>|
            s@ == #[trigger] (r@ + end) && forall|i: int|
                0 <= i < end.len() ==> set@.contains(#[trigger] end[i]),
        r@.len() > 0 ==> !set@.contains(r@.last()),
{
    let end = lemma_end_trimmed(s@, set@);
    assert(s@ == r@ + end);
}

/// Texts and bytes are the same exactly where every character or byte is.
pub proof fn law_same(a: &str, b: &str, x: &[u8], y: &[u8], texts: bool, bytes: bool)
    requires
        call_ensures(same_text, (a, b), texts),
        call_ensures(same_bytes, (x, y), bytes),
    ensures
        texts == (a@ == b@),
        bytes == (x@ == y@),
{
}

/// A text starts with a prefix exactly where it is the prefix and something more, and that is what
/// is left without it.
pub proof fn law_prefixes(s: &str, prefix: &str, starts: bool, rest: Option<&str>)
    requires
        call_ensures(starts_with, (s, prefix), starts),
        call_ensures(strip_prefix, (s, prefix), rest),
    ensures
        starts == (exists|tail: Seq<char>| s@ == #[trigger] (prefix@ + tail)),
        starts == rest is Some,
        rest matches Some(tail) ==> s@ == prefix@ + tail@,
{
    if starts {
        let tail = s@.skip(prefix@.len() as int);
        assert(s@ =~= prefix@ + tail);
    }
    if exists|tail: Seq<char>| s@ == #[trigger] (prefix@ + tail) {
        let tail = choose|tail: Seq<char>| s@ == #[trigger] (prefix@ + tail);
        assert(prefix@ =~= s@.subrange(0, prefix@.len() as int));
    }
    assert(starts == prefix@.is_prefix_of(s@));
    assert(text::option_view(rest) == text::without_prefix(s@, prefix@));
    if let Some(tail) = rest {
        assert(tail@ == s@.skip(prefix@.len() as int));
        assert(s@ =~= prefix@ + tail@);
    }
}

/// Texts are searched, joined and copied character by character.
pub proof fn law_lists_and_joins(
    a: &str,
    b: &str,
    c: &str,
    wanted: char,
    list: &Vec<String>,
    found: bool,
    two: String,
    three: String,
    listed: bool,
    copy: Vec<String>,
)
    requires
        call_ensures(contains_char, (a, wanted), found),
        call_ensures(join2, (a, b), two),
        call_ensures(join3, (a, b, c), three),
        call_ensures(list_contains, (list, a), listed),
        call_ensures(copy_texts, (list,), copy),
    ensures
        found == (exists|i: int| 0 <= i < a@.len() && #[trigger] a@[i] == wanted),
        two@ == a@ + b@,
        three@ == a@ + b@ + c@,
        listed == (exists|i: int| 0 <= i < list@.len() && (#[trigger] list@[i])@ == a@),
        copy@.len() == list@.len(),
        forall|i: int| 0 <= i < list@.len() ==> (#[trigger] copy@[i])@ == list@[i]@,
{
    crate::laws::request::lemma_has_text(list@, a@);
    assert forall|i: int| 0 <= i < list@.len() implies (#[trigger] copy@[i])@ == list@[i]@ by {
        assert(text::texts(copy@)[i] == text::texts(list@)[i]);
    }
    assert(text::texts(copy@).len() == text::texts(list@).len());
}

/// The number that digits denote.
pub open spec fn digits_value(digits: Seq<char>) -> int
    decreases digits.len(),
{
    if digits.len() == 0 {
        0
    } else {
        10 * digits_value(digits.drop_last()) + (digits.last() as int - '0' as int)
    }
}

proof fn lemma_decimal(n: nat)
    ensures
        text::decimal_text(n).len() > 0,
        digits_value(text::decimal_text(n)) == n,
        forall|i: int|
            0 <= i < text::decimal_text(n).len() ==> '0' <= #[trigger] text::decimal_text(n)[i]
                <= '9',
        n > 0 ==> text::decimal_text(n)[0] != '0',
        n < 10 ==> text::decimal_text(n).len() == 1,
    decreases n,
{
    reveal_strlit("0");
    reveal_strlit("1");
    reveal_strlit("2");
    reveal_strlit("3");
    reveal_strlit("4");
    reveal_strlit("5");
    reveal_strlit("6");
    reveal_strlit("7");
    reveal_strlit("8");
    reveal_strlit("9");
    reveal_with_fuel(digits_value, 2);
    let r = text::decimal_text(n);
    if n >= 10 {
        lemma_decimal(n / 10);
        let head = text::decimal_text(n / 10);
        assert(r.drop_last() =~= head);
        assert forall|i: int| 0 <= i < r.len() implies '0' <= #[trigger] r[i] <= '9' by {
            if i < head.len() {
                assert(r[i] == head[i]);
            }
        }
        assert(r[0] == head[0]);
    }
}

/// Numbers are written in decimal digits that denote them, without zeros in front.
pub proof fn law_decimal(n: u64, r: String)
    requires
        call_ensures(decimal, (n,), r),
    ensures
        r@.len() > 0,
        digits_value(r@) == n,
        forall|i: int| 0 <= i < r@.len() ==> '0' <= #[trigger] r@[i] <= '9',
        r@[0] == '0' ==> r@.len() == 1,
{
    lemma_decimal(n as nat);
}

/// Whether one byte string is before another in a dictionary: at the first place where they differ
/// its byte is less, or it ends there.
pub open spec fn before(a: Seq<u8>, b: Seq<u8>) -> bool {
    exists|n: int|
        0 <= n <= a.len() && n < b.len() && #[trigger] a.take(n) == b.take(n) && (n == a.len()
            || a[n] < b[n])
}

pub(crate) proof fn lemma_before(a: Seq<u8>, b: Seq<u8>)
    ensures
        text::bytes_before(a, b) == before(a, b),
    decreases a.len(),
{
    if before(a, b) {
        let n = choose|n: int|
            0 <= n <= a.len() && n < b.len() && #[trigger] a.take(n) == b.take(n) && (n == a.len()
                || a[n] < b[n]);
        text::lemma_bytes_before_step(a, b, n);
        assert(b.skip(n)[0] == b[n]);
        if n < a.len() {
            assert(a.skip(n)[0] == a[n]);
        }
    }
    if text::bytes_before(a, b) {
        if a.len() == 0 || a[0] < b[0] {
            assert(a.take(0) =~= b.take(0));
        } else {
            let x = a.drop_first();
            let y = b.drop_first();
            lemma_before(x, y);
            let n = choose|n: int|
                0 <= n <= x.len() && n < y.len() && #[trigger] x.take(n) == y.take(n) && (n
                    == x.len() || x[n] < y[n]);
            assert(a.take(n + 1) =~= seq![a[0]] + x.take(n));
            assert(b.take(n + 1) =~= seq![b[0]] + y.take(n));
            if n < x.len() {
                assert(x[n] == a[n + 1] && y[n] == b[n + 1]);
            }
        }
    }
}

/// Texts are ordered as their bytes are in a dictionary.
pub proof fn law_comes_before(a: &str, b: &str, r: bool)
    requires
        call_ensures(comes_before, (a, b), r),
    ensures
        r == before(utf8::encode_utf8(a@), utf8::encode_utf8(b@)),
{
    lemma_before(utf8::encode_utf8(a@), utf8::encode_utf8(b@));
}

/// Sums and differences of times are exact where 64 signed bits hold them, and stop at the bounds
/// where they do not.
pub proof fn law_saturation(a: i64, b: i64, sum: i64, difference: i64)
    requires
        call_ensures(saturating_sum, (a, b), sum),
        call_ensures(saturating_difference, (a, b), difference),
    ensures
        i64::MIN <= a + b <= i64::MAX ==> sum == a + b,
        a + b > i64::MAX ==> sum == i64::MAX,
        a + b < i64::MIN ==> sum == i64::MIN,
        i64::MIN <= a - b <= i64::MAX ==> difference == a - b,
        a - b > i64::MAX ==> difference == i64::MAX,
        a - b < i64::MIN ==> difference == i64::MIN,
{
}

/// A time stamp is the seconds since the epoch, as far as 64 signed bits hold them, and zero before
/// the epoch.
pub proof fn law_unix_timestamp(elapsed: Option<u64>, r: i64)
    requires
        call_ensures(unix_timestamp, (elapsed,), r),
    ensures
        elapsed is None ==> r == 0,
        elapsed matches Some(seconds) ==> if seconds <= i64::MAX {
            r == seconds
        } else {
            r == i64::MAX
        },
{
}

proof fn lemma_big_endian_byte(value: nat, width: nat, i: int)
    requires
        0 <= i < width,
    ensures
        encoding::big_endian(value, width).len() == width,
        encoding::big_endian(value, width)[i] == (value as int / power::pow(
            256,
            (width - 1 - i) as nat,
        )) % 256,
    decreases width,
{
    encoding::lemma_big_endian_length(value, width);
    if i == width - 1 {
        power::lemma_pow0(256);
    } else {
        lemma_big_endian_byte(value / 256, (width - 1) as nat, i);
        let low = (width - 2 - i) as nat;
        power::lemma_pow_positive(256, low);
        power::lemma_pow_adds(256, 1, low);
        power::lemma_pow1(256);
        vstd::arithmetic::div_mod::lemma_div_denominator(
            value as int,
            256,
            power::pow(256, low),
        );
    }
}

/// A number is written on as many bytes as asked for, behind what is there: the byte at each place
/// is the number's digit to the base 256, the highest first.
pub proof fn law_push_big_endian(output: &mut Vec<u8>, value: u128, width: usize)
    requires
        call_ensures(push_big_endian, (output, value, width), ()),
    ensures
        final(output)@.len() == old(output)@.len() + width,
        forall|i: int|
            0 <= i < old(output)@.len() ==> #[trigger] final(output)@[i] == old(output)@[i],
        forall|i: int|
            0 <= i < width ==> #[trigger] final(output)@[old(output)@.len() + i] == (value as int
                / power::pow(256, (width - 1 - i) as nat)) % 256,
{
    encoding::lemma_big_endian_length(value as nat, width as nat);
    assert forall|i: int| 0 <= i < width implies #[trigger] final(output)@[old(output)@.len() + i]
        == (value as int / power::pow(256, (width - 1 - i) as nat)) % 256 by {
        lemma_big_endian_byte(value as nat, width as nat, i);
    }
}

/// A signed number and the unsigned one with its bits differ by a multiple of two to the 64.
pub proof fn law_unsigned_bits(value: i64, r: u64)
    requires
        call_ensures(unsigned_bits, (value,), r),
    ensures
        r == value as int % 0x1_0000_0000_0000_0000,
{
}

/// Base64 is read exactly where it is the text of some data, and gives that data.
pub proof fn law_decode_text(encoded: &str, r: Option<Vec<u8>>)
    requires
        call_ensures(decode_text, (encoded,), r),
    ensures
        r matches Some(data) ==> encoding::base64_text(data@) == encoded@,
        forall|data: Seq<u8>| #[trigger]
            encoding::base64_text(data) == encoded@ ==> r is Some && r->0@ == data,
{
    encoding::lemma_base64_bytes(encoded@);
}

/// A failure is told by its kind and its detail.
pub proof fn law_error_message(error: &Error, r: String)
    requires
        call_ensures(Error::message, (error,), r),
    ensures
        error matches Error::Config(m) ==> r@ == "configuration error: "@ + m@,
        error matches Error::InvalidMasterKey(m) ==> r@ == "invalid master key: "@ + m@,
        error matches Error::KeyExists(m) ==> r@ == "wallet key already exists: "@ + m@,
        error matches Error::KeyNotFound(m) ==> r@ == "wallet key not found: "@ + m@,
        error matches Error::InvalidKey(m) ==> r@ == "invalid wallet key: "@ + m@,
        error matches Error::InvalidRequest(m) ==> r@ == "invalid signing request: "@ + m@,
        error matches Error::RequestExpired ==> r@ == "signing request expired"@,
        error matches Error::RequestConflict ==> r@
            == "request ID was reused for different signing data"@,
        error matches Error::UnsupportedScheme(m) ==> r@ == "unsupported signing scheme: "@ + m@,
        error matches Error::Crypto(m) ==> r@ == "cryptographic operation failed: "@ + m@,
        error matches Error::ReadFile { path, source } ==> r@ == "failed to read "@ + path@ + ": "@
            + source@,
        error matches Error::WriteFile { path, source } ==> r@ == "failed to write "@ + path@
            + ": "@ + source@,
        error matches Error::Io(m) ==> r@ == m@,
        error matches Error::Json(m) ==> r@ == m@,
        error matches Error::Mqtt(m) ==> r@ == "MQTT error: "@ + m@,
{
}

/// A failure with a fixed text has that text.
pub proof fn law_fixed_failures(message: &str, a: Error, b: Error, c: Error)
    requires
        call_ensures(config_error, (message,), a),
        call_ensures(invalid_request, (message,), b),
        call_ensures(crypto_error, (message,), c),
    ensures
        a matches Error::Config(told) && told@ == message@,
        b matches Error::InvalidRequest(told) && told@ == message@,
        c matches Error::Crypto(told) && told@ == message@,
{
}

/// Bytes are copied one for one.
pub proof fn law_copy_bytes<const N: usize>(target: &mut [u8; N], source: &[u8])
    requires
        source@.len() == N,
        call_ensures(copy_bytes::<N>, (target, source), ()),
    ensures
        forall|i: int| 0 <= i < N ==> #[trigger] final(target)@[i] == source@[i],
{
}

} // verus!
