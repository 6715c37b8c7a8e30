//! The launcher and the application that a control group names.

use vstd::prelude::*;
use vstd::utf8::*;

use crate::pattern;
use crate::text;

verus! {

/// The control group of a process in an application or background slice: the
/// launcher, if there is one, is its first group, the application its second.
pub const RE_CGROUP: &'static str = r"(?U)/(?:app|background)\.slice/(?:app-|dbus-:)(?:(?P<launcher>[^-]+)-)?(?P<cgroup>[^-]+)(?:-[0-9]+|@[0-9]+)?\.(?:scope|service)";

/// The control group of a snap, `snap.<snap-name>.<app-name>-<uuid>.scope`: the
/// two names are its first group. A hyphen may stand in the names as well as
/// before the identifier, so the latter is matched in full.
pub const RE_SNAP_CGROUP: &'static str = r"/snap\.(?P<cgroup>[_\-0-9a-z]+\.[\-0-9a-z]+)(?:-[0-9a-f]{8}(?:-[0-9a-f]{4}){3}-[0-9a-f]{12})\.(?:scope|service)";

/// The value of an ASCII hexadecimal digit.
pub open spec fn hex_value(b: u8) -> Option<u8> {
    if 0x30 <= b <= 0x39 {
        Some((b - 0x30) as u8)
    } else if 0x61 <= b <= 0x66 {
        Some((b - 0x57) as u8)
    } else if 0x41 <= b <= 0x46 {
        Some((b - 0x37) as u8)
    } else {
        None
    }
}

/// Whether an escape `\xHH` begins the bytes: a backslash and an `x`, with two
/// more bytes behind them.
pub open spec fn escape_begins(bytes: Seq<u8>) -> bool {
    bytes.len() >= 4 && bytes[0] == 0x5c && bytes[1] == 0x78
}

/// The bytes with every escape `\xHH` replaced by the byte that it denotes; none
/// where an escape has a digit that is not hexadecimal.
pub open spec fn unescape(bytes: Seq<u8>) -> Option<Seq<u8>>
    decreases bytes.len(),
{
    if bytes.len() == 0 {
        Some(Seq::<u8>::empty())
    } else if escape_begins(bytes) {
        match (hex_value(bytes[2]), hex_value(bytes[3]), unescape(bytes.skip(4))) {
            (Some(hi), Some(lo), Some(rest)) => Some(seq![(hi * 16 + lo) as u8] + rest),
            _ => None,
        }
    } else {
        match unescape(bytes.skip(1)) {
            Some(rest) => Some(seq![bytes[0]] + rest),
            None => None,
        }
    }
}

/// A text with its escapes decoded; none where an escape is malformed or the
/// result is no UTF-8.
pub open spec fn decoded(s: Seq<char>) -> Option<Seq<char>> {
    match unescape(encode_utf8(s)) {
        Some(bytes) => if valid_utf8(bytes) {
            Some(decode_utf8(bytes))
        } else {
            None
        },
        None => None,
    }
}

/// Calls `String::from_utf8`: the text of the bytes where they are UTF-8, else
/// none.
#[verifier::external_body]
fn string_from_utf8(bytes: Vec<u8>) -> (r: Option<String>)
    ensures
        match r {
            Some(s) => valid_utf8(bytes@) && s@ == decode_utf8(bytes@),
            None => !valid_utf8(bytes@),
        },
{
    String::from_utf8(bytes).ok()
}

fn hex(b: u8) -> (r: Option<u8>)
    ensures
        r == hex_value(b),
        r matches Some(v) ==> v < 16,
{
    if 0x30 <= b && b <= 0x39 {
        Some(b - 0x30)
    } else if 0x61 <= b && b <= 0x66 {
        Some(b - 0x57)
    } else if 0x41 <= b && b <= 0x46 {
        Some(b - 0x37)
    } else {
        None
    }
}

/// Decodes the escapes of a text. Some applications write a hyphen this way,
/// which is not allowed in the name of a control group.
pub fn decode_hex_escapes(s: &str) -> (r: Option<String>)
    ensures
        text::opt_text(r) == decoded(s@),
{
    let bytes: &[u8] = s.as_bytes();
    let mut out: Vec<u8> = Vec::new();
    let mut i: usize = 0;
    proof {
        assert(bytes@.skip(0) =~= bytes@);
        if let Some(rest) = unescape(bytes@) {
            assert(out@ + rest =~= rest);
        }
    }
    while i < bytes.len()
        invariant
            i <= bytes.len(),
            bytes@ == encode_utf8(s@),
            match unescape(bytes@.skip(i as int)) {
                Some(rest) => unescape(bytes@) == Some(out@ + rest),
                None => unescape(bytes@) is None,
            },
        decreases bytes.len() - i,
    {
        let ghost rest = bytes@.skip(i as int);
        let ghost before = out@;
        proof {
            assert(rest[0] == bytes@[i as int]);
        }
        if bytes[i] == 0x5c && bytes.len() - i > 3 && bytes[i + 1] == 0x78 {
            proof {
                assert(rest[1] == bytes@[i + 1]);
                assert(rest[2] == bytes@[i + 2]);
                assert(rest[3] == bytes@[i + 3]);
                assert(rest.skip(4) =~= bytes@.skip(i + 4));
            }
            let Some(hi) = hex(bytes[i + 2]) else {
                return None;
            };
            let Some(lo) = hex(bytes[i + 3]) else {
                return None;
            };
            out.push(hi * 16 + lo);
            i += 4;
        } else {
            proof {
                if rest.len() >= 4 {
                    assert(rest[1] == bytes@[i + 1]);
                }
                assert(rest.skip(1) =~= bytes@.skip(i + 1));
            }
            out.push(bytes[i]);
            i += 1;
        }
        proof {
            if let Some(tail) = unescape(bytes@.skip(i as int)) {
                assert(out@ + tail =~= before + (seq![out@.last()] + tail));
            }
        }
    }
    proof {
        assert(bytes@.skip(i as int) =~= Seq::<u8>::empty());
        assert(out@ + Seq::<u8>::empty() =~= out@);
    }
    string_from_utf8(out)
}

/// A text without its escapes, if it is there and can be decoded.
pub open spec fn decoded_group(group: Option<Seq<char>>) -> Option<Seq<char>> {
    match group {
        Some(s) => decoded(s),
        None => None,
    }
}

fn decode_group(group: Option<String>) -> (r: Option<String>)
    ensures
        text::opt_text(r) == decoded_group(text::opt_text(group)),
{
    match group {
        Some(s) => decode_hex_escapes(s.as_str()),
        None => None,
    }
}

/// The launcher and the application that the two patterns found: the application
/// slice counts before the snap, and of a snap the launcher is `snap`.
pub open spec fn launcher_and_cgroup(
    slice: Option<Seq<Option<Seq<char>>>>,
    snap: Option<Seq<Option<Seq<char>>>>,
) -> (Option<Seq<char>>, Option<Seq<char>>) {
    if slice is Some {
        (decoded_group(pattern::group(slice, 1)), decoded_group(pattern::group(slice, 2)))
    } else if snap is Some {
        (Some("snap"@), decoded_group(pattern::group(snap, 1)))
    } else {
        (None, None)
    }
}

/// The launcher and the application, from what the two patterns found.
pub fn cgroup_from_captures(
    slice: &Option<Vec<Option<String>>>,
    snap: &Option<Vec<Option<String>>>,
) -> (r: (Option<String>, Option<String>))
    ensures
        (text::opt_text(r.0), text::opt_text(r.1)) == launcher_and_cgroup(
            pattern::captured(*slice),
            pattern::captured(*snap),
        ),
{
    if slice.is_some() {
        (
            decode_group(pattern::group_text(slice, 1)),
            decode_group(pattern::group_text(slice, 2)),
        )
    } else if snap.is_some() {
        (Some("snap".to_string()), decode_group(pattern::group_text(snap, 1)))
    } else {
        (None, None)
    }
}

/// The launcher and the application that the contents of `/proc/<pid>/cgroup`
/// name.
pub open spec fn cgroup_of(cgroup: Seq<char>) -> (Option<Seq<char>>, Option<Seq<char>>) {
    launcher_and_cgroup(
        pattern::captures_of(RE_CGROUP@, cgroup),
        pattern::captures_of(RE_SNAP_CGROUP@, cgroup),
    )
}

/// The launcher and the application that the contents of `/proc/<pid>/cgroup`
/// name, in the format of the application and background slices or in that of
/// the snaps.
pub fn sanitize_cgroup(cgroup: &str) -> (r: (Option<String>, Option<String>))
    ensures
        (text::opt_text(r.0), text::opt_text(r.1)) == cgroup_of(cgroup@),
{
    let slice: Option<Vec<Option<String>>> = pattern::find_captures(RE_CGROUP, cgroup);
    let snap: Option<Vec<Option<String>>> = pattern::find_captures(RE_SNAP_CGROUP, cgroup);
    cgroup_from_captures(&slice, &snap)
}

/// The bytes of a text without a backslash hold no escape.
proof fn lemma_unescape_plain(bytes: Seq<u8>)
    requires
        forall|i: int| 0 <= i < bytes.len() ==> bytes[i] != 0x5c,
    ensures
        unescape(bytes) == Some(bytes),
    decreases bytes.len(),
{
    if bytes.len() > 0 {
        let rest = bytes.skip(1);
        assert forall|i: int| 0 <= i < rest.len() implies rest[i] != 0x5c by {
            assert(rest[i] == bytes[i + 1]);
        }
        lemma_unescape_plain(rest);
        assert(seq![bytes[0]] + rest =~= bytes);
    }
}

/// The lower-case hexadecimal digit of a value below sixteen.
pub open spec fn hex_byte(d: int) -> u8 {
    if d < 10 {
        (0x30 + d) as u8
    } else {
        (0x57 + d) as u8
    }
}

/// The bytes with each written as an escape `\xHH`.
pub open spec fn escape_all(bytes: Seq<u8>) -> Seq<u8>
    decreases bytes.len(),
{
    if bytes.len() == 0 {
        Seq::<u8>::empty()
    } else {
        seq![0x5cu8, 0x78u8, hex_byte(bytes[0] as int / 16), hex_byte(bytes[0] as int % 16)] + escape_all(
            bytes.skip(1),
        )
    }
}

proof fn lemma_unescape_all(bytes: Seq<u8>)
    ensures
        unescape(escape_all(bytes)) == Some(bytes),
    decreases bytes.len(),
{
    let e = escape_all(bytes);
    if bytes.len() > 0 {
        let rest = bytes.skip(1);
        lemma_unescape_all(rest);
        assert(e.skip(4) =~= escape_all(rest));
        assert(seq![bytes[0]] + rest =~= bytes);
        let hi = (bytes[0] / 16) as int;
        let lo = (bytes[0] % 16) as int;
        assert(hi * 16 + lo == bytes[0]);
        assert(hex_value(hex_byte(hi)) == Some(hi as u8));
        assert(hex_value(hex_byte(lo)) == Some(lo as u8));
        assert(escape_begins(e));
    }
}

/// A text whose bytes were all written as escapes is decoded to what it was.
pub proof fn escapes_round_trip(s: Seq<char>, escaped: Seq<char>)
    requires
        encode_utf8(escaped) == escape_all(encode_utf8(s)),
    ensures
        decoded(escaped) == Some(s),
{
    lemma_unescape_all(encode_utf8(s));
    encode_utf8_valid_utf8(s);
    encode_utf8_decode_utf8(s);
}

/// The encoding of a character other than a backslash holds no byte 0x5c.
proof fn lemma_scalar_plain(c: char)
    requires
        c != '\\',
    ensures
        forall|i: int|
            0 <= i < encode_scalar(c as u32).len() ==> #[trigger] encode_scalar(c as u32)[i] != 0x5c,
{
    let v = c as u32;
    assert(v != 0x5c);
    assert(v <= 0x7f ==> leading_byte_width_1(v) == v) by (bit_vector);
    assert(leading_byte_width_2(v) >= 0x80) by (bit_vector);
    assert(leading_byte_width_3(v) >= 0x80) by (bit_vector);
    assert(leading_byte_width_4(v) >= 0x80) by (bit_vector);
    assert(last_continuation_byte(v) >= 0x80) by (bit_vector);
    assert(second_last_continuation_byte(v) >= 0x80) by (bit_vector);
    assert(third_last_continuation_byte(v) >= 0x80) by (bit_vector);
}

proof fn lemma_encoding_plain(s: Seq<char>)
    requires
        forall|i: int| 0 <= i < s.len() ==> s[i] != '\\',
    ensures
        forall|i: int| 0 <= i < encode_utf8(s).len() ==> encode_utf8(s)[i] != 0x5c,
    decreases s.len(),
{
    if s.len() > 0 {
        let rest = s.drop_first();
        assert forall|i: int| 0 <= i < rest.len() implies rest[i] != '\\' by {
            assert(rest[i] == s[i + 1]);
        }
        lemma_encoding_plain(rest);
        lemma_scalar_plain(s[0]);
        let head = encode_scalar(s[0] as u32);
        assert forall|i: int| 0 <= i < encode_utf8(s).len() implies encode_utf8(s)[i] != 0x5c by {
            if i < head.len() {
                assert(encode_utf8(s)[i] == head[i]);
            } else {
                assert(encode_utf8(s)[i] == encode_utf8(rest)[i - head.len()]);
            }
        }
    }
}

/// A text without a backslash is decoded to itself.
pub proof fn plain_text_unchanged(s: Seq<char>)
    requires
        forall|i: int| 0 <= i < s.len() ==> s[i] != '\\',
    ensures
        decoded(s) == Some(s),
{
    lemma_encoding_plain(s);
    lemma_unescape_plain(encode_utf8(s));
    encode_utf8_valid_utf8(s);
    encode_utf8_decode_utf8(s);
}

/// An application slice names the launcher and the application; only without one a snap
/// does, whose launcher is `snap`; all other control groups name neither.
pub proof fn slice_before_snap(cgroup: Seq<char>)
    ensures
        ({
            let slice = pattern::captures_of(
                r"(?U)/(?:app|background)\.slice/(?:app-|dbus-:)(?:(?P<launcher>[^-]+)-)?(?P<cgroup>[^-]+)(?:-[0-9]+|@[0-9]+)?\.(?:scope|service)"@,
                cgroup,
            );
            let snap = pattern::captures_of(
                r"/snap\.(?P<cgroup>[_\-0-9a-z]+\.[\-0-9a-z]+)(?:-[0-9a-f]{8}(?:-[0-9a-f]{4}){3}-[0-9a-f]{12})\.(?:scope|service)"@,
                cgroup,
            );
            let (launcher, app) = cgroup_of(cgroup);
            &&& slice is Some ==> {
                &&& match pattern::group(slice, 1) {
                    Some(s) => launcher == decoded(s),
                    None => launcher is None,
                }
                &&& match pattern::group(slice, 2) {
                    Some(s) => app == decoded(s),
                    None => app is None,
                }
            }
            &&& slice is None && snap is Some ==> {
                &&& launcher == Some("snap"@)
                &&& match pattern::group(snap, 1) {
                    Some(s) => app == decoded(s),
                    None => app is None,
                }
            }
            &&& slice is None && snap is None ==> launcher is None && app is None
        }),
{
}

/// Whether a byte is the digit of a value below sixteen, in either case.
pub open spec fn is_digit_of(b: u8, value: int) -> bool {
    0 <= value < 16 && if value < 10 {
        b == '0' as u8 + value
    } else {
        b == 'a' as u8 + (value - 10) || b == 'A' as u8 + (value - 10)
    }
}

/// An escape stands for the byte whose two hexadecimal digits it has, a byte that is no
/// backslash for itself.
pub proof fn escape_stands_for_byte(hi: u8, lo: u8, byte: u8, plain: u8, rest: Seq<u8>)
    requires
        is_digit_of(hi, byte as int / 16),
        is_digit_of(lo, byte as int % 16),
        plain != 0x5c,
        unescape(rest) is Some,
    ensures
        unescape(seq![0x5c, 0x78, hi, lo] + rest) == Some(seq![byte] + unescape(rest)->0),
        unescape(seq![plain] + rest) == Some(seq![plain] + unescape(rest)->0),
{
    let e = seq![0x5c, 0x78, hi, lo] + rest;
    assert(e.skip(4) =~= rest);
    assert(e[0] == 0x5c && e[1] == 0x78 && e[2] == hi && e[3] == lo);
    assert(escape_begins(e));
    assert(hex_value(hi) == Some((byte as int / 16) as u8));
    assert(hex_value(lo) == Some((byte as int % 16) as u8));
    let p = seq![plain] + rest;
    assert(p.skip(1) =~= rest);
    assert(p[0] == plain);
}

/// An escape with anything else than two hexadecimal digits cannot be decoded.
pub proof fn malformed_escape_refused(hi: u8, lo: u8, rest: Seq<u8>)
    requires
        (forall|v: int| !is_digit_of(hi, v)) || (forall|v: int| !is_digit_of(lo, v)),
    ensures
        unescape(seq![0x5c, 0x78, hi, lo] + rest) is None,
{
    let e = seq![0x5c, 0x78, hi, lo] + rest;
    assert(e[0] == 0x5c && e[1] == 0x78 && e[2] == hi && e[3] == lo);
    assert(escape_begins(e));
    if let Some(v) = hex_value(hi) {
        assert(is_digit_of(hi, v as int));
    }
    if let Some(v) = hex_value(lo) {
        assert(is_digit_of(lo, v as int));
    }
}

} // verus!
