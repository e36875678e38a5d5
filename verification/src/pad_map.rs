//! The mapping from hardware coordinates to pad identities.
//!
//! The map is loaded from a text table of five comma-separated decimal
//! fields per line: controller, board, chip, channel, pad.  Each row is
//! keyed by the canonical coordinate number
//! `controller * 10^6 + board * 10^4 + chip * 100 + channel`; a later row
//! with the same key replaces an earlier one.

use vstd::prelude::*;

use crate::error::PadMapError;

verus! {

broadcast use vstd::std_specs::hash::group_hash_axioms;

/// A full hardware address: the four physical coordinates and the logical
/// pad they map to.
#[derive(Debug, Clone, Copy, PartialEq, Eq, Structural)]
pub struct HardwareID {
    pub cobo_id: usize,
    pub asad_id: usize,
    pub aget_id: usize,
    pub channel: usize,
    pub pad_id: usize,
}

impl HardwareID {
    /// Widen the coordinate bytes and the pad number into one address.
    pub fn new(cobo_id: &u8, asad_id: &u8, aget_id: &u8, channel: &u8, pad_id: &u64) -> (r: Self)
        requires
            *pad_id <= usize::MAX,
        ensures
            r.cobo_id == *cobo_id,
            r.asad_id == *asad_id,
            r.aget_id == *aget_id,
            r.channel == *channel,
            r.pad_id == *pad_id,
    {
        HardwareID {
            cobo_id: *cobo_id as usize,
            asad_id: *asad_id as usize,
            aget_id: *aget_id as usize,
            channel: *channel as usize,
            pad_id: *pad_id as usize,
        }
    }
}

/// The canonical coordinate number of controller `c`, board `a`, chip `g`,
/// channel `ch`.
pub open spec fn spec_uuid(c: int, a: int, g: int, ch: int) -> int {
    ch + g * 100 + a * 10_000 + c * 1_000_000
}

/// The coordinate number an address answers to.
pub open spec fn spec_uuid_of(hw: HardwareID) -> int {
    spec_uuid(hw.cobo_id as int, hw.asad_id as int, hw.aget_id as int, hw.channel as int)
}

/// Compute the canonical coordinate number for a hardware location.
pub fn generate_uuid(cobo_id: &u8, asad_id: &u8, aget_id: &u8, channel_id: &u8) -> (r: u64)
    ensures
        r == spec_uuid(*cobo_id as int, *asad_id as int, *aget_id as int, *channel_id as int),
{
    (*channel_id as u64) + (*aget_id as u64) * 100 + (*asad_id as u64) * 10_000 + (
    *cobo_id as u64) * 1_000_000
}

/// An ASCII decimal digit.
pub open spec fn is_digit(b: u8) -> bool {
    0x30 <= b <= 0x39
}

/// A non-empty run of ASCII decimal digits.
pub open spec fn is_digits(s: Seq<u8>) -> bool {
    s.len() > 0 && forall|i: int| 0 <= i < s.len() ==> is_digit(s[i])
}

/// The number the digit run `s` denotes; non-digit bytes count as zero.
pub open spec fn digits_val(s: Seq<u8>) -> int
    decreases s.len(),
{
    if s.len() == 0 {
        0
    } else {
        digits_val(s.drop_last()) * 10 + if is_digit(s.last()) {
            s.last() - 0x30
        } else {
            0
        }
    }
}

proof fn lemma_digits_val_nonneg(s: Seq<u8>)
    ensures
        digits_val(s) >= 0,
    decreases s.len(),
{
    if s.len() > 0 {
        lemma_digits_val_nonneg(s.drop_last());
    }
}

/// Appending digits never shrinks the denoted number, so a prefix that is
/// already too large dooms the whole run.
proof fn lemma_digits_val_prefix_le(s: Seq<u8>, k: int)
    requires
        0 <= k <= s.len(),
    ensures
        digits_val(s.take(k)) <= digits_val(s),
    decreases s.len() - k,
{
    if k < s.len() {
        lemma_digits_val_prefix_le(s, k + 1);
        lemma_digits_val_nonneg(s.take(k));
        assert(s.take(k + 1).drop_last() =~= s.take(k));
        assert(digits_val(s.take(k + 1)) >= digits_val(s.take(k)));
    } else {
        assert(s.take(k) =~= s);
    }
}

/// Parse a run of ASCII digits as an unsigned 64-bit number; `None` when
/// the run is empty, holds a non-digit, or denotes a number past `u64::MAX`.
pub fn parse_u64_digits(s: &[u8]) -> (r: Option<u64>)
    ensures
        match r {
            Some(v) => is_digits(s@) && digits_val(s@) == v,
            None => !is_digits(s@) || digits_val(s@) > u64::MAX,
        },
{
    let n = s.len();
    if n == 0 {
        return None;
    }
    let mut val: u64 = 0;
    let mut i: usize = 0;
    while i < n
        invariant
            n == s@.len(),
            i <= n,
            forall|j: int| 0 <= j < i ==> is_digit(s@[j]),
            val == digits_val(s@.take(i as int)),
        decreases n - i,
    {
        let b = s[i];
        if b < 0x30 || b > 0x39 {
            return None;
        }
        let d = (b - 0x30) as u64;
        proof {
            assert(s@.take(i + 1).drop_last() =~= s@.take(i as int));
        }
        if val > (u64::MAX - d) / 10 {
            proof {
                let q = (u64::MAX - d) / 10;
                assert(q * 10 + (u64::MAX - d) % 10 == u64::MAX - d);
                assert(digits_val(s@.take(i + 1)) > u64::MAX);
                lemma_digits_val_prefix_le(s@, i + 1);
            }
            return None;
        }
        proof {
            let q = (u64::MAX - d) / 10;
            assert(q * 10 + (u64::MAX - d) % 10 == u64::MAX - d);
        }
        val = val * 10 + d;
        i = i + 1;
    }
    proof {
        assert(s@.take(n as int) =~= s@);
    }
    Some(val)
}

/// Position of the first `c` in `b` at or after `i` and before `end`, or
/// `end` when there is none.
pub open spec fn find_in(b: Seq<u8>, c: u8, i: int, end: int) -> int
    decreases end - i,
{
    if i >= end {
        end
    } else if b[i] == c {
        i
    } else {
        find_in(b, c, i + 1, end)
    }
}

/// `find_in` answers between its starting point and `end`.
pub proof fn lemma_find_in_bounds(b: Seq<u8>, c: u8, i: int, end: int)
    requires
        i <= end,
    ensures
        i <= find_in(b, c, i, end) <= end,
    decreases end - i,
{
    if i < end && b[i] != c {
        lemma_find_in_bounds(b, c, i + 1, end);
    }
}

/// Scan `b` for the first `c` at or after `from`.
pub(crate) fn find_byte_from(b: &[u8], c: u8, from: usize) -> (r: usize)
    requires
        from <= b@.len(),
    ensures
        r == find_in(b@, c, from as int, b@.len() as int),
        from <= r <= b@.len(),
        r < b@.len() ==> b@[r as int] == c,
{
    let n = b.len();
    let mut i = from;
    while i < n
        invariant
            n == b@.len(),
            from <= i <= n,
            find_in(b@, c, from as int, n as int) == find_in(b@, c, i as int, n as int),
        decreases n - i,
    {
        if b[i] == c {
            return i;
        }
        i = i + 1;
    }
    n
}

/// The comma-separated fields of `b` between `i` and `end`: what splitting
/// on `,` yields when a trailing separator opens no further field.
pub open spec fn spec_fields_from(b: Seq<u8>, i: int, end: int) -> Seq<Seq<u8>>
    decreases end - i,
    via spec_fields_from_decreases
{
    if i >= end {
        Seq::empty()
    } else {
        let j = find_in(b, 0x2C, i, end);
        if j >= end {
            seq![b.subrange(i, end)]
        } else {
            seq![b.subrange(i, j)] + spec_fields_from(b, j + 1, end)
        }
    }
}

#[via_fn]
proof fn spec_fields_from_decreases(b: Seq<u8>, i: int, end: int) {
    if i < end {
        lemma_find_in_bounds(b, 0x2C, i, end);
    }
}

/// The comma-separated fields of the whole line.
pub open spec fn spec_fields(line: Seq<u8>) -> Seq<Seq<u8>> {
    spec_fields_from(line, 0, line.len() as int)
}

/// A field denoting a number that fits the given bound.
pub open spec fn field_fits(f: Seq<u8>, bound: int) -> bool {
    is_digits(f) && digits_val(f) <= bound
}

/// The first `k` fields each hold a byte-sized number and `vals` carries
/// their values.
pub open spec fn vals_ok(fseq: Seq<Seq<u8>>, vals: Seq<u64>, k: int) -> bool {
    forall|i: int|
        0 <= i < k ==> field_fits(#[trigger] fseq[i], 255) && vals[i] == digits_val(fseq[i])
}

/// The address a table line denotes: five decimal fields for controller,
/// board, chip and channel (each a byte) and the pad number, or the fault
/// that stops it: fewer than five fields, or a field that is not a decimal
/// number in range.
pub open spec fn spec_parse_row(line: Seq<u8>) -> Result<HardwareID, PadMapError> {
    let fs = spec_fields(line);
    if fs.len() < 5 {
        Err(PadMapError::BadFileFormat)
    } else if !(field_fits(fs[0], 255) && field_fits(fs[1], 255) && field_fits(fs[2], 255)
        && field_fits(fs[3], 255) && field_fits(fs[4], usize::MAX as int)) {
        Err(PadMapError::ParsingError)
    } else {
        Ok(
            HardwareID {
                cobo_id: digits_val(fs[0]) as usize,
                asad_id: digits_val(fs[1]) as usize,
                aget_id: digits_val(fs[2]) as usize,
                channel: digits_val(fs[3]) as usize,
                pad_id: digits_val(fs[4]) as usize,
            },
        )
    }
}

/// Parse one line of the table into an address.
fn parse_row(line: &[u8]) -> (r: Result<HardwareID, PadMapError>)
    ensures
        r == spec_parse_row(line@),
{
    let end = line.len();
    let mut starts: Vec<usize> = Vec::new();
    let mut ends: Vec<usize> = Vec::new();
    let ghost mut fseq: Seq<Seq<u8>> = Seq::empty();
    let mut cur: usize = 0;
    let mut k: usize = 0;
    while k < 5
        invariant
            end == line@.len(),
            k <= 5,
            cur <= end,
            starts@.len() == k,
            ends@.len() == k,
            fseq.len() == k,
            forall|i: int| 0 <= i < k ==> #[trigger] starts@[i] <= ends@[i] <= end,
            forall|i: int|
                0 <= i < k ==> fseq[i] == line@.subrange(starts@[i] as int, ends@[i] as int),
            spec_fields(line@) == fseq + spec_fields_from(line@, cur as int, end as int),
        decreases 5 - k,
    {
        if cur >= end {
            proof {
                assert(spec_fields_from(line@, cur as int, end as int) =~= Seq::<
                    Seq<u8>,
                >::empty());
                assert(spec_fields(line@) =~= fseq);
            }
            return Err(PadMapError::BadFileFormat);
        }
        let j = find_byte_from(line, 0x2C, cur);
        proof {
            let fld = line@.subrange(cur as int, j as int);
            if j < end {
                assert(spec_fields_from(line@, cur as int, end as int) == seq![fld]
                    + spec_fields_from(line@, j + 1, end as int));
            } else {
                assert(spec_fields_from(line@, cur as int, end as int) =~= seq![fld]);
            }
        }
        starts.push(cur);
        ends.push(j);
        proof {
            fseq = fseq + seq![line@.subrange(cur as int, j as int)];
        }
        if j < end {
            proof {
                assert(spec_fields(line@) =~= fseq + spec_fields_from(
                    line@,
                    j + 1,
                    end as int,
                ));
            }
            cur = j + 1;
        } else {
            proof {
                assert(spec_fields(line@) =~= fseq + spec_fields_from(
                    line@,
                    end as int,
                    end as int,
                ));
            }
            cur = end;
        }
        k = k + 1;
    }
    let mut vals: Vec<u64> = Vec::new();
    let mut k2: usize = 0;
    while k2 < 4
        invariant
            end == line@.len(),
            k2 <= 4,
            vals@.len() == k2,
            starts@.len() == 5,
            ends@.len() == 5,
            fseq.len() == 5,
            forall|i: int| 0 <= i < 5 ==> #[trigger] starts@[i] <= ends@[i] <= end,
            forall|i: int|
                0 <= i < 5 ==> fseq[i] == line@.subrange(starts@[i] as int, ends@[i] as int),
            spec_fields(line@).len() >= 5,
            forall|i: int| 0 <= i < 5 ==> spec_fields(line@)[i] == fseq[i],
            vals_ok(fseq, vals@, k2 as int),
        decreases 4 - k2,
    {
        let f = &line[starts[k2]..ends[k2]];
        proof {
            assert(f@ == fseq[k2 as int]);
            assert(spec_fields(line@)[k2 as int] == fseq[k2 as int]);
        }
        match parse_u64_digits(f) {
            Some(v) => {
                if v > 255 {
                    proof {
                        assert(!field_fits(spec_fields(line@)[k2 as int], 255));
                    }
                    return Err(PadMapError::ParsingError);
                }
                vals.push(v);
                proof {
                    assert(field_fits(fseq[k2 as int], 255));
                    assert(vals@[k2 as int] == digits_val(fseq[k2 as int]));
                }
            },
            None => {
                proof {
                    assert(!field_fits(spec_fields(line@)[k2 as int], 255));
                }
                return Err(PadMapError::ParsingError);
            },
        }
        proof {
            assert forall|i: int| 0 <= i < k2 + 1 implies field_fits(#[trigger] fseq[i], 255)
                && vals@[i] == digits_val(fseq[i]) by {
                if i < k2 {
                    assert(vals_ok(fseq, vals@.take(k2 as int), k2 as int));
                    assert(field_fits(fseq[i], 255) && vals@.take(k2 as int)[i] == digits_val(
                        fseq[i],
                    ));
                }
            }
        }
        k2 = k2 + 1;
    }
    let f4 = &line[starts[4]..ends[4]];
    let pad: u64 = match parse_u64_digits(f4) {
        Some(v) => v,
        None => {
            return Err(PadMapError::ParsingError);
        },
    };
    if pad > usize::MAX as u64 {
        return Err(PadMapError::ParsingError);
    }
    Ok(
        HardwareID {
            cobo_id: vals[0] as usize,
            asad_id: vals[1] as usize,
            aget_id: vals[2] as usize,
            channel: vals[3] as usize,
            pad_id: pad as usize,
        },
    )
}

/// A line with a trailing carriage return loses it.
pub open spec fn strip_cr(s: Seq<u8>) -> Seq<u8> {
    if s.len() > 0 && s.last() == 0x0D {
        s.drop_last()
    } else {
        s
    }
}

/// The lines of `b` from position `i` on: split at every line feed, each
/// line shorn of a trailing carriage return, with no empty line after a
/// trailing line feed.
pub open spec fn spec_lines_from(b: Seq<u8>, i: int) -> Seq<Seq<u8>>
    decreases b.len() - i,
    via spec_lines_from_decreases
{
    if i >= b.len() {
        Seq::empty()
    } else {
        let j = find_in(b, 0x0A, i, b.len() as int);
        let line = strip_cr(b.subrange(i, j));
        if j >= b.len() {
            seq![line]
        } else {
            seq![line] + spec_lines_from(b, j + 1)
        }
    }
}

#[via_fn]
proof fn spec_lines_from_decreases(b: Seq<u8>, i: int) {
    if i < b.len() {
        lemma_find_in_bounds(b, 0x0A, i, b.len() as int);
    }
}

/// The lines of the whole table text.
pub open spec fn spec_lines(b: Seq<u8>) -> Seq<Seq<u8>> {
    spec_lines_from(b, 0)
}

/// The map the given lines build: each line parsed to an address and
/// entered under its coordinate number, a later line overwriting an earlier
/// one with the same key; the first line that fails to parse stops the
/// build with its fault.
pub open spec fn spec_parse_pad_map_lines(ls: Seq<Seq<u8>>) -> Result<
    Map<u64, HardwareID>,
    PadMapError,
>
    decreases ls.len(),
{
    if ls.len() == 0 {
        Ok(Map::empty())
    } else {
        match spec_parse_pad_map_lines(ls.drop_last()) {
            Err(e) => Err(e),
            Ok(m) => match spec_parse_row(ls.last()) {
                Err(e) => Err(e),
                Ok(hw) => Ok(m.insert(spec_uuid_of(hw) as u64, hw)),
            },
        }
    }
}

/// The map the table text builds.
pub open spec fn spec_parse_pad_map(b: Seq<u8>) -> Result<Map<u64, HardwareID>, PadMapError> {
    spec_parse_pad_map_lines(spec_lines(b))
}

/// Once a prefix of the lines fails, any continuation fails the same way.
proof fn lemma_parse_error_persists(ls: Seq<Seq<u8>>, more: Seq<Seq<u8>>)
    requires
        spec_parse_pad_map_lines(ls) is Err,
    ensures
        spec_parse_pad_map_lines(ls + more) == spec_parse_pad_map_lines(ls),
    decreases more.len(),
{
    if more.len() == 0 {
        assert(ls + more =~= ls);
    } else {
        lemma_parse_error_persists(ls, more.drop_last());
        assert((ls + more).drop_last() =~= ls + more.drop_last());
    }
}

/// Every address in the map is filed under its own coordinate number: the
/// map's inverse image of an address is the coordinate that produced it.
pub open spec fn keys_consistent(pm: Map<u64, HardwareID>) -> bool {
    forall|k: u64| #[trigger] pm.contains_key(k) ==> spec_uuid_of(pm[k]) == k
}

/// The mapping from hardware coordinates to pad identities, keyed by the
/// canonical coordinate number.
#[derive(Debug, Clone)]
pub struct PadMap {
    map: std::collections::HashMap<u64, HardwareID>,
}

impl View for PadMap {
    type V = Map<u64, HardwareID>;

    closed spec fn view(&self) -> Map<u64, HardwareID> {
        self.map@
    }
}

impl PadMap {
    /// Build the map from the text of the table: five comma-separated
    /// decimal fields per line, keyed by coordinate, last row winning among
    /// rows with equal coordinates.
    pub fn new(contents: &[u8]) -> (r: Result<PadMap, PadMapError>)
        ensures
            (r matches Ok(pm) ==> spec_parse_pad_map(contents@) == Ok::<
                Map<u64, HardwareID>,
                PadMapError,
            >(pm@) && keys_consistent(pm@)),
            (r matches Err(e) ==> spec_parse_pad_map(contents@) == Err::<
                Map<u64, HardwareID>,
                PadMapError,
            >(e)),
    {
        let blen = contents.len();
        let mut map: std::collections::HashMap<u64, HardwareID> =
            std::collections::HashMap::new();
        let ghost mut ldone: Seq<Seq<u8>> = Seq::empty();
        let mut pos: usize = 0;
        while pos < blen
            invariant
                blen == contents@.len(),
                pos <= blen,
                spec_lines(contents@) == ldone + spec_lines_from(contents@, pos as int),
                spec_parse_pad_map_lines(ldone) == Ok::<Map<u64, HardwareID>, PadMapError>(map@),
            decreases blen - pos,
        {
            let j = find_byte_from(contents, 0x0A, pos);
            let line_end = if j > pos && contents[j - 1] == 0x0D {
                j - 1
            } else {
                j
            };
            let line = &contents[pos..line_end];
            proof {
                assert(line@ =~= strip_cr(contents@.subrange(pos as int, j as int)));
            }
            let ghost rest: Seq<Seq<u8>> = if j < blen {
                spec_lines_from(contents@, j + 1)
            } else {
                Seq::empty()
            };
            proof {
                assert(spec_lines_from(contents@, pos as int) == seq![line@] + rest);
                assert(spec_lines(contents@) =~= ldone.push(line@) + rest);
                assert(ldone.push(line@).drop_last() =~= ldone);
            }
            match parse_row(line) {
                Ok(hw) => {
                    proof {
                        ldone = ldone.push(line@);
                        let fs = spec_fields(line@);
                        lemma_digits_val_nonneg(fs[0]);
                        lemma_digits_val_nonneg(fs[1]);
                        lemma_digits_val_nonneg(fs[2]);
                        lemma_digits_val_nonneg(fs[3]);
                        lemma_digits_val_nonneg(fs[4]);
                        assert(hw.cobo_id <= 255 && hw.asad_id <= 255 && hw.aget_id <= 255
                            && hw.channel <= 255);
                    }
                    let uuid = generate_uuid(
                        &(hw.cobo_id as u8),
                        &(hw.asad_id as u8),
                        &(hw.aget_id as u8),
                        &(hw.channel as u8),
                    );
                    proof {
                        assert(uuid == spec_uuid_of(hw));
                    }
                    map.insert(uuid, hw);
                    proof {
                        assert(spec_parse_pad_map_lines(ldone) == Ok::<
                            Map<u64, HardwareID>,
                            PadMapError,
                        >(map@));
                    }
                },
                Err(e) => {
                    proof {
                        ldone = ldone.push(line@);
                        assert(spec_parse_pad_map_lines(ldone) == Err::<
                            Map<u64, HardwareID>,
                            PadMapError,
                        >(e));
                        lemma_parse_error_persists(ldone, rest);
                    }
                    return Err(e);
                },
            }
            if j < blen {
                pos = j + 1;
            } else {
                pos = blen;
            }
        }
        proof {
            assert(spec_lines(contents@) =~= ldone);
            lemma_pad_map_keys_consistent(ldone, map@);
        }
        Ok(PadMap { map })
    }

    /// Look up the full address recorded for a hardware location; `None`
    /// when the location is not in the table.
    pub fn get_hardware_id(
        &self,
        cobo_id: &u8,
        asad_id: &u8,
        aget_id: &u8,
        channel_id: &u8,
    ) -> (r: Option<&HardwareID>)
        ensures
            ({
                let key = spec_uuid(
                    *cobo_id as int,
                    *asad_id as int,
                    *aget_id as int,
                    *channel_id as int,
                ) as u64;
                match r {
                    Some(hw) => self@.contains_key(key) && *hw == self@[key],
                    None => !self@.contains_key(key),
                }
            }),
    {
        let uuid = generate_uuid(cobo_id, asad_id, aget_id, channel_id);
        self.map.get(&uuid)
    }
}

/// Line `i` parses to an address.
pub open spec fn row_ok(ls: Seq<Seq<u8>>, i: int) -> bool {
    spec_parse_row(ls[i]) is Ok
}

/// The address line `i` parses to.
pub open spec fn row_hw(ls: Seq<Seq<u8>>, i: int) -> HardwareID {
    spec_parse_row(ls[i])->Ok_0
}

/// Line `i` is the last line whose address answers to coordinate number
/// `k`, and it carries `hw`.
pub open spec fn is_last_row(ls: Seq<Seq<u8>>, i: int, k: u64, hw: HardwareID) -> bool {
    &&& 0 <= i < ls.len()
    &&& row_ok(ls, i)
    &&& row_hw(ls, i) == hw
    &&& spec_uuid_of(hw) == k
    &&& forall|j: int|
        i < j < ls.len() ==> !(#[trigger] row_ok(ls, j) && spec_uuid_of(row_hw(ls, j)) == k)
}

/// Some line's address answers to coordinate number `k`.
pub open spec fn has_row_with_key(ls: Seq<Seq<u8>>, k: u64) -> bool {
    exists|i: int| 0 <= i < ls.len() && #[trigger] row_ok(ls, i) && spec_uuid_of(row_hw(ls, i)) == k
}

/// An address of a parsed row answers to a coordinate number a `u64` holds.
proof fn lemma_row_uuid_bounds(line: Seq<u8>, hw: HardwareID)
    requires
        spec_parse_row(line) == Ok::<HardwareID, PadMapError>(hw),
    ensures
        0 <= spec_uuid_of(hw) <= 0xFFFF_FFFF,
        hw.cobo_id <= 255,
        hw.asad_id <= 255,
        hw.aget_id <= 255,
        hw.channel <= 255,
{
    let fs = spec_fields(line);
    lemma_digits_val_nonneg(fs[0]);
    lemma_digits_val_nonneg(fs[1]);
    lemma_digits_val_nonneg(fs[2]);
    lemma_digits_val_nonneg(fs[3]);
    lemma_digits_val_nonneg(fs[4]);
}

/// Every key of a parsed map is the coordinate number of the address it
/// holds: the map's inverse image of an address is the coordinate the
/// address was filed under.
pub proof fn lemma_pad_map_keys_consistent(ls: Seq<Seq<u8>>, m: Map<u64, HardwareID>)
    requires
        spec_parse_pad_map_lines(ls) == Ok::<Map<u64, HardwareID>, PadMapError>(m),
    ensures
        forall|k: u64| #[trigger] m.contains_key(k) ==> spec_uuid_of(m[k]) == k,
    decreases ls.len(),
{
    if ls.len() > 0 {
        let m0 = spec_parse_pad_map_lines(ls.drop_last())->Ok_0;
        let hw = spec_parse_row(ls.last())->Ok_0;
        lemma_pad_map_keys_consistent(ls.drop_last(), m0);
        lemma_row_uuid_bounds(ls.last(), hw);
        assert(m == m0.insert(spec_uuid_of(hw) as u64, hw));
    }
}

/// A looked-up address, looked up again by its own coordinates, returns
/// itself: the lookup after `generate_uuid` is idempotent.
pub proof fn lemma_pad_map_lookup_idempotent(b: Seq<u8>, m: Map<u64, HardwareID>, k: u64)
    requires
        spec_parse_pad_map(b) == Ok::<Map<u64, HardwareID>, PadMapError>(m),
        m.contains_key(k),
    ensures
        spec_uuid_of(m[k]) == k,
        m.contains_key(spec_uuid_of(m[k]) as u64),
        m[spec_uuid_of(m[k]) as u64] == m[k],
{
    lemma_pad_map_keys_consistent(spec_lines(b), m);
}

/// The parsed map holds exactly the coordinate numbers the rows name, and
/// each is bound to the address of the last row naming it, wherever in the
/// table that row stands.  The map is therefore unchanged by reordering
/// rows whose coordinate numbers are distinct; among duplicates the later
/// row wins.
pub proof fn lemma_pad_map_last_row_wins(ls: Seq<Seq<u8>>, m: Map<u64, HardwareID>)
    requires
        spec_parse_pad_map_lines(ls) == Ok::<Map<u64, HardwareID>, PadMapError>(m),
    ensures
        forall|k: u64| #[trigger]
            m.contains_key(k) ==> exists|i: int| is_last_row(ls, i, k, m[k]),
        forall|k: u64| #[trigger] has_row_with_key(ls, k) ==> m.contains_key(k),
    decreases ls.len(),
{
    if ls.len() == 0 {
        assert forall|k: u64| #[trigger] has_row_with_key(ls, k) implies m.contains_key(k) by {
            assert(!has_row_with_key(ls, k));
        }
    } else {
        let prefix = ls.drop_last();
        let m0 = spec_parse_pad_map_lines(prefix)->Ok_0;
        let hw = spec_parse_row(ls.last())->Ok_0;
        lemma_pad_map_last_row_wins(prefix, m0);
        lemma_row_uuid_bounds(ls.last(), hw);
        let key = spec_uuid_of(hw) as u64;
        assert(m == m0.insert(key, hw));
        let n = ls.len() as int;
        assert(forall|i: int| 0 <= i < n - 1 ==> prefix[i] == ls[i]);
        assert(row_ok(ls, n - 1) && row_hw(ls, n - 1) == hw);
        assert forall|k: u64| #[trigger] m.contains_key(k) implies exists|i: int|
            is_last_row(ls, i, k, m[k]) by {
            if k == key {
                assert(m[k] == hw);
                assert(is_last_row(ls, n - 1, k, m[k]));
            } else {
                assert(m0.contains_key(k) && m[k] == m0[k]);
                let i0 = choose|i: int| is_last_row(prefix, i, k, m0[k]);
                assert(is_last_row(prefix, i0, k, m0[k]));
                assert(row_ok(ls, i0) && row_hw(ls, i0) == m0[k]);
                assert forall|j: int|
                    i0 < j < n implies !(#[trigger] row_ok(ls, j) && spec_uuid_of(row_hw(ls, j))
                    == k) by {
                    if j < n - 1 {
                        assert(!(row_ok(prefix, j) && spec_uuid_of(row_hw(prefix, j)) == k));
                    } else {
                        assert(spec_uuid_of(row_hw(ls, j)) == key);
                    }
                }
                assert(is_last_row(ls, i0, k, m[k]));
            }
        }
        assert forall|k: u64| #[trigger] has_row_with_key(ls, k) implies m.contains_key(k) by {
            let i = choose|i: int|
                0 <= i < ls.len() && #[trigger] row_ok(ls, i) && spec_uuid_of(row_hw(ls, i)) == k;
            if i == n - 1 {
                assert(k == key);
            } else {
                assert(row_ok(prefix, i) && spec_uuid_of(row_hw(prefix, i)) == k);
                assert(has_row_with_key(prefix, k));
            }
        }
    }
}

} // verus!
