//! GUIDs: the text form `xxxxxxxx-xxxx-xxxx-xxxx-xxxxxxxxxxxx` that the
//! configuration names a boot partition by, and the sixteen bytes that the
//! firmware stores for it.
use vstd::prelude::*;

verus! {

/// A GUID as the firmware stores it: sixteen bytes in the mixed-endian
/// layout of the UEFI specification (the first three fields little-endian,
/// the clock sequence and the node big-endian).
#[derive(Clone, Copy, Debug)]
pub struct Guid {
    pub bytes: [u8; 16],
}

impl View for Guid {
    type V = Seq<u8>;

    open spec fn view(&self) -> Seq<u8> {
        self.bytes@
    }
}

impl Guid {
    /// Whether two GUIDs are the same.
    pub fn same_as(&self, other: &Guid) -> (r: bool)
        ensures
            r == (self@ == other@),
    {
        let mut i: usize = 0;
        while i < 16
            invariant
                i <= 16,
                self@.len() == 16,
                other@.len() == 16,
                forall|j: int| 0 <= j < i ==> self@[j] == other@[j],
            decreases 16 - i,
        {
            if self.bytes[i] != other.bytes[i] {
                return false;
            }
            i = i + 1;
        }
        assert(self@ =~= other@);
        true
    }
}

/// Why a GUID's text form was refused, field by field.
#[derive(Clone, Copy, Debug, PartialEq, Eq, Structural)]
pub enum GuidParseError {
    /// The text does not split into exactly five `-`-separated parts.
    WrongPartCount,
    InvalidTimeLow,
    InvalidTimeMid,
    InvalidTimeHigh,
    InvalidClockSeq,
    InvalidNode,
}

/// The pieces of `s` between `-` separators, empty pieces included: a text
/// with `n` separators has `n + 1` pieces.
pub open spec fn split_dashes(s: Seq<char>) -> Seq<Seq<char>>
    decreases s.len(),
{
    if s.len() == 0 {
        seq![Seq::<char>::empty()]
    } else {
        let init = split_dashes(s.drop_last());
        if s.last() == '-' {
            init.push(Seq::<char>::empty())
        } else {
            init.update(init.len() - 1, init.last().push(s.last()))
        }
    }
}

pub open spec fn is_hex_digit(c: char) -> bool {
    ('0' <= c && c <= '9') || ('a' <= c && c <= 'f') || ('A' <= c && c <= 'F')
}

pub open spec fn hex_digit_value(c: char) -> nat {
    if '0' <= c && c <= '9' {
        ((c as u32) - ('0' as u32)) as nat
    } else if 'a' <= c && c <= 'f' {
        ((c as u32) - ('a' as u32) + 10) as nat
    } else {
        ((c as u32) - ('A' as u32) + 10) as nat
    }
}

pub open spec fn all_hex(d: Seq<char>) -> bool {
    forall|i: int| 0 <= i < d.len() ==> is_hex_digit(#[trigger] d[i])
}

/// The number that the hex digits `d` spell, most significant first.
pub open spec fn hex_value(d: Seq<char>) -> nat
    decreases d.len(),
{
    if d.len() == 0 {
        0
    } else {
        hex_value(d.drop_last()) * 16 + hex_digit_value(d.last())
    }
}

/// A hexadecimal field as `from_str_radix(_, 16)` reads it for an unsigned
/// type whose largest value is `max`: an optional leading `+`, then at least
/// one hex digit (either case), and a value no larger than `max`.
pub open spec fn hex_field(s: Seq<char>, max: nat) -> Option<nat> {
    let digits = if s.len() > 0 && s[0] == '+' {
        s.skip(1)
    } else {
        s
    };
    if digits.len() > 0 && all_hex(digits) && hex_value(digits) <= max {
        Some(hex_value(digits))
    } else {
        None
    }
}

/// The sixteen bytes of the GUID whose fields are `time_low` (32 bits),
/// `time_mid`, `time_high` (16 bits each), `clock_seq` (16 bits) and `node`
/// (48 bits).
pub open spec fn guid_layout(time_low: nat, time_mid: nat, time_high: nat, clock_seq: nat, node: nat) -> Seq<u8> {
    seq![
        (time_low % 0x100) as u8,
        ((time_low / 0x100) % 0x100) as u8,
        ((time_low / 0x1_0000) % 0x100) as u8,
        ((time_low / 0x100_0000) % 0x100) as u8,
        (time_mid % 0x100) as u8,
        ((time_mid / 0x100) % 0x100) as u8,
        (time_high % 0x100) as u8,
        ((time_high / 0x100) % 0x100) as u8,
        ((clock_seq / 0x100) % 0x100) as u8,
        (clock_seq % 0x100) as u8,
        ((node / 0x100_0000_0000) % 0x100) as u8,
        ((node / 0x1_0000_0000) % 0x100) as u8,
        ((node / 0x100_0000) % 0x100) as u8,
        ((node / 0x1_0000) % 0x100) as u8,
        ((node / 0x100) % 0x100) as u8,
        (node % 0x100) as u8,
    ]
}

/// What the text `s` denotes as a GUID: the bytes, or the first reason for
/// refusing it. The node must fit in 48 bits.
pub open spec fn guid_from_text(s: Seq<char>) -> Result<Seq<u8>, GuidParseError> {
    let parts = split_dashes(s);
    if parts.len() != 5 {
        Err(GuidParseError::WrongPartCount)
    } else if hex_field(parts[0], 0xffff_ffff) is None {
        Err(GuidParseError::InvalidTimeLow)
    } else if hex_field(parts[1], 0xffff) is None {
        Err(GuidParseError::InvalidTimeMid)
    } else if hex_field(parts[2], 0xffff) is None {
        Err(GuidParseError::InvalidTimeHigh)
    } else if hex_field(parts[3], 0xffff) is None {
        Err(GuidParseError::InvalidClockSeq)
    } else if hex_field(parts[4], 0xffff_ffff_ffff) is None {
        Err(GuidParseError::InvalidNode)
    } else {
        Ok(
            guid_layout(
                hex_field(parts[0], 0xffff_ffff)->0,
                hex_field(parts[1], 0xffff)->0,
                hex_field(parts[2], 0xffff)->0,
                hex_field(parts[3], 0xffff)->0,
                hex_field(parts[4], 0xffff_ffff_ffff)->0,
            ),
        )
    }
}

pub open spec fn guid_result_view(r: Result<Guid, GuidParseError>) -> Result<Seq<u8>, GuidParseError> {
    match r {
        Ok(g) => Ok(g@),
        Err(e) => Err(e),
    }
}

/// The type GUID of an EFI system partition, c12a7328-f81f-11d2-ba4b-00a0c93ec93b.
pub open spec fn esp_type_guid() -> Seq<u8> {
    guid_layout(0xc12a7328, 0xf81f, 0x11d2, 0xba4b, 0x00a0_c93e_c93b)
}

/// The hex digit for `d` (below 16), in upper or lower case.
pub open spec fn hex_digit_char(d: nat, upper: bool) -> char {
    if d < 10 {
        ((d + 48) as u32) as char
    } else if upper {
        ((d + 55) as u32) as char
    } else {
        ((d + 87) as u32) as char
    }
}

/// `v` written with exactly `width` hex digits, most significant first.
pub open spec fn hex_text(v: nat, width: nat, upper: bool) -> Seq<char>
    decreases width,
{
    if width == 0 {
        Seq::empty()
    } else {
        hex_text(v / 16, (width - 1) as nat, upper).push(hex_digit_char(v % 16, upper))
    }
}

pub open spec fn pow16(n: nat) -> nat
    decreases n,
{
    if n == 0 {
        1
    } else {
        16 * pow16((n - 1) as nat)
    }
}

/// The standard text of a GUID: its fields in 8-4-4-4-12 hex digits,
/// separated by `-`.
pub open spec fn guid_text(
    time_low: nat,
    time_mid: nat,
    time_high: nat,
    clock_seq: nat,
    node: nat,
    upper: bool,
) -> Seq<char> {
    hex_text(time_low, 8, upper) + seq!['-'] + hex_text(time_mid, 4, upper) + seq!['-'] + hex_text(
        time_high,
        4,
        upper,
    ) + seq!['-'] + hex_text(clock_seq, 4, upper) + seq!['-'] + hex_text(node, 12, upper)
}

proof fn lemma_hex_digit_char(d: nat, upper: bool)
    requires
        d < 16,
    ensures
        is_hex_digit(hex_digit_char(d, upper)),
        hex_digit_value(hex_digit_char(d, upper)) == d,
{
}

proof fn lemma_hex_text(v: nat, width: nat, upper: bool)
    requires
        v < pow16(width),
    ensures
        hex_text(v, width, upper).len() == width,
        all_hex(hex_text(v, width, upper)),
        hex_value(hex_text(v, width, upper)) == v,
    decreases width,
{
    if width > 0 {
        lemma_hex_text(v / 16, (width - 1) as nat, upper);
        lemma_hex_digit_char(v % 16, upper);
        let t = hex_text(v, width, upper);
        assert(t.drop_last() =~= hex_text(v / 16, (width - 1) as nat, upper));
        assert forall|i: int| 0 <= i < t.len() implies is_hex_digit(#[trigger] t[i]) by {
            if i < t.len() - 1 {
                assert(t[i] == t.drop_last()[i]);
            }
        }
    }
}

proof fn lemma_split_len(s: Seq<char>)
    ensures
        split_dashes(s).len() >= 1,
    decreases s.len(),
{
    if s.len() > 0 {
        lemma_split_len(s.drop_last());
    }
}

/// Appending text without a `-` extends the last piece.
proof fn lemma_split_append(s: Seq<char>, t: Seq<char>)
    requires
        all_hex(t),
    ensures
        split_dashes(s + t) == split_dashes(s).update(
            split_dashes(s).len() - 1,
            split_dashes(s).last() + t,
        ),
    decreases t.len(),
{
    lemma_split_len(s);
    if t.len() == 0 {
        assert(s + t =~= s);
        assert(split_dashes(s).last() + t =~= split_dashes(s).last());
        assert(split_dashes(s).update(split_dashes(s).len() - 1, split_dashes(s).last())
            =~= split_dashes(s));
    } else {
        let init = t.drop_last();
        assert(all_hex(init)) by {
            assert forall|i: int| 0 <= i < init.len() implies is_hex_digit(#[trigger] init[i]) by {
                assert(init[i] == t[i]);
            }
        }
        lemma_split_append(s, init);
        assert((s + t).drop_last() =~= s + init);
        assert((s + t).last() == t.last());
        assert(is_hex_digit(t[t.len() - 1]));
        assert((split_dashes(s).last() + init).push(t.last()) =~= split_dashes(s).last() + t);
        assert(split_dashes(s + t) =~= split_dashes(s).update(
            split_dashes(s).len() - 1,
            split_dashes(s).last() + t,
        ));
    }
}

/// Appending a `-` starts a new, empty piece.
proof fn lemma_split_dash(s: Seq<char>)
    ensures
        split_dashes(s + seq!['-']) == split_dashes(s).push(Seq::<char>::empty()),
{
    assert((s + seq!['-']).drop_last() =~= s);
}

proof fn lemma_hex_field_of_text(v: nat, width: nat, upper: bool, max: nat)
    requires
        width > 0,
        v < pow16(width),
        v <= max,
    ensures
        hex_field(hex_text(v, width, upper), max) == Some(v),
        all_hex(hex_text(v, width, upper)),
{
    lemma_hex_text(v, width, upper);
    let t = hex_text(v, width, upper);
    assert(is_hex_digit(t[0]));
}

/// Writing a GUID's fields in the standard text form, in either case, and
/// reading the text back gives the GUID of those fields.
pub proof fn lemma_guid_text_round_trip(tl: u32, tm: u16, th: u16, cs: u16, node: u64, upper: bool)
    requires
        node < 0x1_0000_0000_0000,
    ensures
        guid_from_text(guid_text(tl as nat, tm as nat, th as nat, cs as nat, node as nat, upper))
            == Ok::<Seq<u8>, GuidParseError>(
            guid_layout(tl as nat, tm as nat, th as nat, cs as nat, node as nat),
        ),
{
    reveal_with_fuel(pow16, 13);
    let h1 = hex_text(tl as nat, 8, upper);
    let h2 = hex_text(tm as nat, 4, upper);
    let h3 = hex_text(th as nat, 4, upper);
    let h4 = hex_text(cs as nat, 4, upper);
    let h5 = hex_text(node as nat, 12, upper);
    lemma_hex_field_of_text(tl as nat, 8, upper, 0xffff_ffff);
    lemma_hex_field_of_text(tm as nat, 4, upper, 0xffff);
    lemma_hex_field_of_text(th as nat, 4, upper, 0xffff);
    lemma_hex_field_of_text(cs as nat, 4, upper, 0xffff);
    lemma_hex_field_of_text(node as nat, 12, upper, 0xffff_ffff_ffff);
    let e = Seq::<char>::empty();
    lemma_split_append(e, h1);
    assert(e + h1 =~= h1);
    assert(split_dashes(h1) =~= seq![h1]);
    let s1 = h1 + seq!['-'];
    lemma_split_dash(h1);
    lemma_split_append(s1, h2);
    assert(split_dashes(s1 + h2) =~= seq![h1, h2]);
    let s2 = s1 + h2 + seq!['-'];
    lemma_split_dash(s1 + h2);
    lemma_split_append(s2, h3);
    assert(split_dashes(s2 + h3) =~= seq![h1, h2, h3]);
    let s3 = s2 + h3 + seq!['-'];
    lemma_split_dash(s2 + h3);
    lemma_split_append(s3, h4);
    assert(split_dashes(s3 + h4) =~= seq![h1, h2, h3, h4]);
    let s4 = s3 + h4 + seq!['-'];
    lemma_split_dash(s3 + h4);
    lemma_split_append(s4, h5);
    assert(split_dashes(s4 + h5) =~= seq![h1, h2, h3, h4, h5]);
}

/// `uefi::Guid::new` stores its fields as given (`time_low` through
/// `u32::from_ne_bytes`, which `Guid::to_bytes` undoes with `to_ne_bytes`),
/// and `Guid::to_bytes` hands the sixteen bytes back in field order. The
/// contract claims that the bytes come back in the order they went in.
#[verifier::external_body]
fn uefi_guid_bytes(
    time_low: [u8; 4],
    time_mid: [u8; 2],
    time_high: [u8; 2],
    clock_seq_high: u8,
    clock_seq_low: u8,
    node: [u8; 6],
) -> (bytes: [u8; 16])
    ensures
        bytes@ == time_low@ + time_mid@ + time_high@ + seq![clock_seq_high, clock_seq_low] + node@,
{
    uefi::Guid::new(time_low, time_mid, time_high, clock_seq_high, clock_seq_low, node).to_bytes()
}

/// `uefi::proto::media::partition::GptPartitionType::EFI_SYSTEM_PARTITION`
/// read through `Guid::to_bytes`. The uefi source defines the constant as
/// `guid!("c12a7328-f81f-11d2-ba4b-00a0c93ec93b")`; the contract claims the
/// bytes of that GUID in the UEFI layout.
#[verifier::external_body]
fn uefi_esp_type_bytes() -> (bytes: [u8; 16])
    ensures
        bytes@ == esp_type_guid(),
{
    uefi::proto::media::partition::GptPartitionType::EFI_SYSTEM_PARTITION.0.to_bytes()
}

/// The type GUID of an EFI system partition.
pub fn esp_type() -> (g: Guid)
    ensures
        g@ == esp_type_guid(),
{
    Guid { bytes: uefi_esp_type_bytes() }
}

/// `hex_value` only grows as digits are appended.
proof fn lemma_hex_value_prefix_le(d: Seq<char>, k: int)
    requires
        all_hex(d),
        0 <= k <= d.len(),
    ensures
        hex_value(d.take(k)) <= hex_value(d),
    decreases d.len(),
{
    if k == d.len() {
        assert(d.take(k) =~= d);
    } else {
        let init = d.drop_last();
        assert(init.take(k) =~= d.take(k));
        lemma_hex_value_prefix_le(init, k);
    }
}

/// Reads one hexadecimal field the way `from_str_radix(_, 16)` does for an
/// unsigned type whose largest value is `max`.
pub fn parse_hex_field(s: &Vec<char>, max: u64) -> (r: Option<u64>)
    ensures
        match r {
            Some(v) => hex_field(s@, max as nat) == Some(v as nat),
            None => hex_field(s@, max as nat) is None,
        },
{
    let len = s.len();
    let start: usize = if len > 0 && s[0] == '+' {
        1
    } else {
        0
    };
    let ghost digits = if s@.len() > 0 && s@[0] == '+' {
        s@.skip(1)
    } else {
        s@
    };
    assert(digits =~= s@.subrange(start as int, len as int));
    if start == len {
        return None;
    }
    let mut acc: u64 = 0;
    let mut i: usize = start;
    while i < len
        invariant
            start <= i <= len,
            len == s@.len(),
            digits =~= s@.subrange(start as int, len as int),
            digits == (if s@.len() > 0 && s@[0] == '+' {
                s@.skip(1)
            } else {
                s@
            }),
            all_hex(s@.subrange(start as int, i as int)),
            acc as nat == hex_value(s@.subrange(start as int, i as int)),
            acc <= max,
        decreases len - i,
    {
        let c = s[i];
        let is_digit = ('0' <= c && c <= '9') || ('a' <= c && c <= 'f') || ('A' <= c && c <= 'F');
        if !is_digit {
            assert(digits[i - start] == c);
            return None;
        }
        let d: u64 = if '0' <= c && c <= '9' {
            (c as u64) - ('0' as u64)
        } else if 'a' <= c && c <= 'f' {
            (c as u64) - ('a' as u64) + 10
        } else {
            (c as u64) - ('A' as u64) + 10
        };
        let next: u128 = (acc as u128) * 16 + (d as u128);
        let ghost prefix = s@.subrange(start as int, i + 1);
        assert(prefix.drop_last() =~= s@.subrange(start as int, i as int));
        assert(prefix.last() == c);
        assert(all_hex(prefix));
        if next > max as u128 {
            proof {
                if all_hex(digits) {
                    assert(digits.take(i + 1 - start) =~= prefix);
                    lemma_hex_value_prefix_le(digits, i + 1 - start);
                }
            }
            return None;
        }
        acc = next as u64;
        i = i + 1;
    }
    assert(s@.subrange(start as int, len as int) =~= digits);
    Some(acc)
}

/// Splits `s` at every `-`.
fn split_at_dashes(s: &str) -> (parts: Vec<Vec<char>>)
    ensures
        parts@.map_values(|p: Vec<char>| p@) =~= split_dashes(s@),
{
    let n = s.unicode_len();
    let mut parts: Vec<Vec<char>> = Vec::new();
    let mut cur: Vec<char> = Vec::new();
    let mut i: usize = 0;
    assert(s@.take(0) =~= Seq::<char>::empty());
    while i < n
        invariant
            i <= n,
            n == s@.len(),
            parts@.map_values(|p: Vec<char>| p@).push(cur@) =~= split_dashes(s@.take(i as int)),
        decreases n - i,
    {
        let c = s.get_char(i);
        let ghost before = split_dashes(s@.take(i as int));
        assert(s@.take(i + 1).drop_last() =~= s@.take(i as int));
        assert(s@.take(i + 1).last() == c);
        if c == '-' {
            parts.push(cur);
            cur = Vec::new();
            assert(parts@.map_values(|p: Vec<char>| p@) =~= before);
        } else {
            cur.push(c);
        }
        i = i + 1;
    }
    assert(s@.take(n as int) =~= s@);
    parts.push(cur);
    parts
}

/// Reads the text form of a GUID: five `-`-separated hexadecimal fields of
/// 32, 16, 16, 16 and 48 bits, each read as `from_str_radix(_, 16)` reads
/// it. The result is the GUID in the firmware's byte layout, or the first
/// field that was refused.
pub fn parse_guid(s: &str) -> (r: Result<Guid, GuidParseError>)
    ensures
        guid_result_view(r) == guid_from_text(s@),
{
    let parts = split_at_dashes(s);
    let ghost views = parts@.map_values(|p: Vec<char>| p@);
    if parts.len() != 5 {
        return Err(GuidParseError::WrongPartCount);
    }
    assert(views[0] == parts@[0]@);
    assert(views[1] == parts@[1]@);
    assert(views[2] == parts@[2]@);
    assert(views[3] == parts@[3]@);
    assert(views[4] == parts@[4]@);
    let time_low = match parse_hex_field(&parts[0], 0xffff_ffff) {
        Some(v) => v,
        None => return Err(GuidParseError::InvalidTimeLow),
    };
    let time_mid = match parse_hex_field(&parts[1], 0xffff) {
        Some(v) => v,
        None => return Err(GuidParseError::InvalidTimeMid),
    };
    let time_high = match parse_hex_field(&parts[2], 0xffff) {
        Some(v) => v,
        None => return Err(GuidParseError::InvalidTimeHigh),
    };
    let clock_seq = match parse_hex_field(&parts[3], 0xffff) {
        Some(v) => v,
        None => return Err(GuidParseError::InvalidClockSeq),
    };
    let node = match parse_hex_field(&parts[4], 0xffff_ffff_ffff) {
        Some(v) => v,
        None => return Err(GuidParseError::InvalidNode),
    };
    let bytes = uefi_guid_bytes(
        [
            (time_low % 0x100) as u8,
            ((time_low / 0x100) % 0x100) as u8,
            ((time_low / 0x1_0000) % 0x100) as u8,
            ((time_low / 0x100_0000) % 0x100) as u8,
        ],
        [(time_mid % 0x100) as u8, ((time_mid / 0x100) % 0x100) as u8],
        [(time_high % 0x100) as u8, ((time_high / 0x100) % 0x100) as u8],
        ((clock_seq / 0x100) % 0x100) as u8,
        (clock_seq % 0x100) as u8,
        [
            ((node / 0x100_0000_0000) % 0x100) as u8,
            ((node / 0x1_0000_0000) % 0x100) as u8,
            ((node / 0x100_0000) % 0x100) as u8,
            ((node / 0x1_0000) % 0x100) as u8,
            ((node / 0x100) % 0x100) as u8,
            (node % 0x100) as u8,
        ],
    );
    let g = Guid { bytes };
    assert(g@ =~= guid_layout(
        time_low as nat,
        time_mid as nat,
        time_high as nat,
        clock_seq as nat,
        node as nat,
    ));
    Ok(g)
}

} // verus!
