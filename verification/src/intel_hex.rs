//! Intel HEX expansion: each data record becomes rows of at most sixteen
//! bytes, each row led by the byte's absolute address.

use vstd::prelude::*;
use vstd::utf8::*;
use vstd::string::StringSliceAdditionalSpecFns;
use vstd::arithmetic::div_mod::lemma_add_mod_noop;
use vstd::arithmetic::div_mod::lemma_add_mod_noop_right;
use crate::hex::{hex_fixed, push_hex, hex_decode, bytes_from_hex, decimal, push_decimal};
use crate::text::{trimmed_bytes, trimmed_line};

verus! {

/// Bytes per output row.
pub const DEFAULT_WIDTH: usize = 16;

/// Sum of the bytes of `s`.
pub open spec fn byte_sum(s: Seq<u8>) -> nat
    decreases s.len(),
{
    if s.len() == 0 {
        0
    } else {
        byte_sum(s.drop_last()) + s.last() as nat
    }
}

/// A record passes its checksum when all its bytes add up to zero modulo 256.
pub open spec fn checksum_ok(record: Seq<u8>) -> bool {
    byte_sum(record) % 256 == 0
}

/// The bytes of a row after its address: a space and two upper-case
/// hexadecimal digits for each byte.
pub open spec fn row_bytes(chunk: Seq<u8>) -> Seq<u8>
    decreases chunk.len(),
{
    if chunk.len() == 0 {
        seq![]
    } else {
        row_bytes(chunk.drop_last()) + seq![32u8] + hex_fixed(chunk.last() as nat, 2)
    }
}

/// One output row: eight hexadecimal digits of the address, a colon, the
/// bytes, and CR LF.
pub open spec fn row(address: nat, chunk: Seq<u8>) -> Seq<u8> {
    hex_fixed(address, 8).push(58u8) + row_bytes(chunk) + seq![13u8, 10u8]
}

/// The address of row `k` of a data record: the base, plus the record's
/// address, plus sixteen bytes per earlier row, wrapping around at 2^32.
pub open spec fn row_address(base: u32, address: u16, k: nat) -> nat {
    ((base as nat + address as nat + 16 * k) % 0x1_0000_0000) as nat
}

/// The rows of `data` from row `k` on.
pub open spec fn rows_from(base: u32, address: u16, data: Seq<u8>, k: nat) -> Seq<u8>
    decreases data.len() + 16 - 16 * k,
{
    if 16 * k >= data.len() {
        seq![]
    } else {
        let start: int = (16 * k) as int;
        let end = if start + 16 <= data.len() { start + 16 } else { data.len() as int };
        row(row_address(base, address, k), data.subrange(start, end)) + rows_from(
            base,
            address,
            data,
            k + 1,
        )
    }
}

/// The rows that a data record at `address` with payload `data` expands to,
/// given the current base address.
pub open spec fn data_rows(base: u32, address: u16, data: Seq<u8>) -> Seq<u8> {
    rows_from(base, address, data, 0)
}

/// Appends `bytes`.
fn push_slice(out: &mut Vec<u8>, bytes: &[u8])
    ensures
        final(out)@ == old(out)@ + bytes@,
{
    let mut i: usize = 0;
    while i < bytes.len()
        invariant
            i <= bytes.len(),
            out@ == old(out)@ + bytes@.subrange(0, i as int),
        decreases bytes.len() - i,
    {
        out.push(bytes[i]);
        i = i + 1;
        assert(out@ =~= old(out)@ + bytes@.subrange(0, i as int));
    }
    assert(bytes@.subrange(0, bytes@.len() as int) =~= bytes@);
}

/// The byte sum of `record` modulo 256 (zero for a record that passes its
/// checksum).
pub fn checksum(record: &[u8]) -> (r: u8)
    ensures
        r as nat == byte_sum(record@) % 256,
{
    let mut sum: u8 = 0;
    let mut i: usize = 0;
    while i < record.len()
        invariant
            i <= record.len(),
            sum as nat == byte_sum(record@.subrange(0, i as int)) % 256,
        decreases record.len() - i,
    {
        let ghost prefix = record@.subrange(0, i as int);
        let ghost next = record@.subrange(0, i + 1);
        assert(next.drop_last() =~= prefix);
        proof {
            lemma_add_mod_noop(byte_sum(prefix) as int, record@[i as int] as int, 256);
        }
        sum = ((sum as u16 + record[i] as u16) % 256) as u8;
        i = i + 1;
    }
    assert(record@.subrange(0, record@.len() as int) =~= record@);
    sum
}

/// Appends the rows that a data record expands to: one row per sixteen
/// bytes of `data`, each led by its absolute address.
pub fn write_data_lines(out: &mut Vec<u8>, base: u32, address: u16, data: &[u8])
    ensures
        final(out)@ == old(out)@ + data_rows(base, address, data@),
{
    let mut start: usize = 0;
    let ghost mut k: nat = 0;
    assert(old(out)@ + rows_from(base, address, data@, 0) =~= out@ + rows_from(
        base,
        address,
        data@,
        0,
    ));
    while start < data.len()
        invariant
            start == 16 * k || (start == data.len() && 16 * k >= data.len()),
            start <= data.len(),
            out@ + rows_from(base, address, data@, k) == old(out)@ + data_rows(base, address, data@),
        decreases data.len() - start,
    {
        let end: usize = if data.len() - start >= DEFAULT_WIDTH {
            start + DEFAULT_WIDTH
        } else {
            data.len()
        };
        let wide: u64 = (base as u64 + address as u64 + (start as u64) % 0x1_0000_0000) % 0x1_0000_0000;
        proof {
            lemma_add_mod_noop_right(base as int + address as int, start as int, 0x1_0000_0000);
        }
        let row_start: u32 = wide as u32;
        let ghost before = out@;
        push_hex(out, row_start, 8);
        out.push(58u8);
        let ghost head = out@;
        let mut j: usize = start;
        while j < end
            invariant
                start <= j <= end <= data.len(),
                out@ == head + row_bytes(data@.subrange(start as int, j as int)),
            decreases end - j,
        {
            let ghost chunk = data@.subrange(start as int, j as int);
            out.push(32u8);
            push_hex(out, data[j] as u32, 2);
            j = j + 1;
            assert(data@.subrange(start as int, j as int).drop_last() =~= chunk);
            assert(out@ =~= head + row_bytes(data@.subrange(start as int, j as int)));
        }
        out.push(13u8);
        out.push(10u8);
        assert(out@ =~= before + row(row_start as nat, data@.subrange(start as int, end as int)));
        assert(row_start as nat == row_address(base, address, k));
        start = end;
        proof {
            k = k + 1;
        }
    }
    assert(rows_from(base, address, data@, k) =~= Seq::<u8>::empty());
    assert(out@ + Seq::<u8>::empty() =~= out@);
}


/// `text` followed by the decimal line number and a line feed.
pub open spec fn notice(text: Seq<u8>, line_no: nat) -> Seq<u8> {
    text + decimal(line_no) + seq![10u8]
}

/// Written for a line that starts with a colon but is not a record.
pub open spec fn invalid_line_notice(line_no: nat) -> Seq<u8> {
    notice("; invalid hex line ".spec_bytes(), line_no)
}

/// Written for a record whose length disagrees with its byte count.
pub open spec fn invalid_length_notice(line_no: nat) -> Seq<u8> {
    notice("; invalid hex length at line ".spec_bytes(), line_no)
}

/// Written for a record whose bytes do not add up to zero modulo 256.
pub open spec fn checksum_notice(line_no: nat) -> Seq<u8> {
    notice("; checksum mismatch at line ".spec_bytes(), line_no)
}

/// The big-endian value of two bytes.
pub open spec fn be16(hi: u8, lo: u8) -> nat {
    hi as nat * 256 + lo as nat
}

/// What a decoded record (at least five bytes: count, address, type, data,
/// checksum) on line `line_no` does, given the current base address: the
/// output it produces, the base address after it, and whether it ends the
/// expansion.
pub open spec fn record_effect(record: Seq<u8>, line_no: nat, base: u32) -> (Seq<u8>, u32, bool) {
    let count = record[0] as int;
    if record.len() != count + 5 {
        (invalid_length_notice(line_no), base, false)
    } else {
        let warning = if checksum_ok(record) {
            Seq::<u8>::empty()
        } else {
            checksum_notice(line_no)
        };
        let address = be16(record[1], record[2]) as u16;
        let kind = record[3];
        let data = record.subrange(4, 4 + count);
        if kind == 0 {
            (warning + data_rows(base, address, data), base, false)
        } else if kind == 1 {
            (warning, base, true)
        } else if kind == 2 && count >= 2 {
            (warning, (be16(data[0], data[1]) * 16) as u32, false)
        } else if kind == 4 && count >= 2 {
            (warning, (be16(data[0], data[1]) * 65536) as u32, false)
        } else {
            (warning, base, false)
        }
    }
}

/// What a line does, given its text `t` with surrounding whitespace removed:
/// an empty line does nothing, a line that does not start with a colon is
/// copied, and a line that does is read as a record.
pub open spec fn text_effect(t: Seq<u8>, line_no: nat, base: u32) -> (Seq<u8>, u32, bool) {
    if t.len() == 0 {
        (Seq::<u8>::empty(), base, false)
    } else if t[0] != 58u8 {
        (t.push(10u8), base, false)
    } else {
        match hex_decode(t.subrange(1, t.len() as int)) {
            Some(record) => if record.len() >= 5 {
                record_effect(record, line_no, base)
            } else {
                (invalid_line_notice(line_no), base, false)
            },
            None => (invalid_line_notice(line_no), base, false),
        }
    }
}

/// What a line of input (without its line feed, valid UTF-8) does.
pub open spec fn line_effect(line: Seq<u8>, line_no: nat, base: u32) -> (Seq<u8>, u32, bool) {
    text_effect(trimmed_bytes(line), line_no, base)
}

/// Where the line that starts at `pos` ends: the position of the next line
/// feed, or the end of the input.
pub open spec fn line_end(input: Seq<u8>, pos: int) -> int
    decreases input.len() - pos,
{
    if pos < 0 || pos >= input.len() {
        input.len() as int
    } else if input[pos] == 10u8 {
        pos
    } else {
        line_end(input, pos + 1)
    }
}

/// A line ends no earlier than it starts and no later than the input.
pub proof fn lemma_line_end_bounds(input: Seq<u8>, pos: int)
    requires
        0 <= pos <= input.len(),
    ensures
        pos <= line_end(input, pos) <= input.len(),
        line_end(input, pos) < input.len() ==> input[line_end(input, pos)] == 10u8,
        forall|i: int| pos <= i < line_end(input, pos) ==> input[i] != 10u8,
    decreases input.len() - pos,
{
    if pos < input.len() && input[pos] != 10u8 {
        lemma_line_end_bounds(input, pos + 1);
    }
}

/// How an expansion ends.
#[derive(Debug, Clone, Copy, PartialEq, Eq, Structural)]
pub enum Finish {
    /// Every line was read.
    Exhausted,
    /// An end-of-file record was read.
    EndRecord,
    /// A line was not valid UTF-8.
    InvalidText,
}

/// The expansion of the lines of `input` from position `pos` on, the first
/// of them numbered `line_no`, with base address `base`: the output, and how
/// it ends.
pub open spec fn run(input: Seq<u8>, pos: int, line_no: nat, base: u32) -> (Seq<u8>, Finish)
    decreases input.len() + 1 - pos,
{
    if pos < 0 || pos >= input.len() {
        (Seq::<u8>::empty(), Finish::Exhausted)
    } else {
        proof {
            lemma_line_end_bounds(input, pos);
        }
        let end = line_end(input, pos);
        let line = input.subrange(pos, end);
        if !valid_utf8(line) {
            (Seq::<u8>::empty(), Finish::InvalidText)
        } else {
            let e = line_effect(line, line_no, base);
            if e.2 {
                (e.0, Finish::EndRecord)
            } else {
                let rest = run(input, end + 1, line_no + 1, e.1);
                (e.0 + rest.0, rest.1)
            }
        }
    }
}

/// The expansion of a whole input: its lines are numbered from one and the
/// base address starts at zero.
pub open spec fn expansion(input: Seq<u8>) -> (Seq<u8>, Finish) {
    run(input, 0, 1, 0)
}

/// The position of the line feed that ends the line starting at `pos`, or
/// the length of the input when no line feed follows.
fn find_line_end(input: &[u8], pos: usize) -> (end: usize)
    requires
        pos <= input.len(),
    ensures
        end as int == line_end(input@, pos as int),
{
    let mut j: usize = pos;
    while j < input.len() && input[j] != 10u8
        invariant
            pos <= j <= input.len(),
            line_end(input@, pos as int) == line_end(input@, j as int),
        decreases input.len() - j,
    {
        j = j + 1;
    }
    j
}

/// Appends `text`, the decimal line number and a line feed.
fn push_notice(out: &mut Vec<u8>, text: &[u8], line_no: usize)
    ensures
        final(out)@ == old(out)@ + notice(text@, line_no as nat),
{
    push_slice(out, text);
    push_decimal(out, line_no);
    out.push(10u8);
    assert(out@ =~= old(out)@ + notice(text@, line_no as nat));
}

/// Appends what a decoded record produces and returns the base address after
/// it and whether it ends the expansion (see [`record_effect`]).
fn expand_record(out: &mut Vec<u8>, record: &[u8], line_no: usize, base: u32) -> (r: (u32, bool))
    requires
        record.len() >= 5,
    ensures
        ({
            let e = record_effect(record@, line_no as nat, base);
            &&& final(out)@ == old(out)@ + e.0
            &&& r.0 == e.1
            &&& r.1 == e.2
        }),
{
    let count: usize = record[0] as usize;
    if record.len() != 4 + count + 1 {
        push_notice(out, "; invalid hex length at line ".as_bytes(), line_no);
        return (base, false);
    }
    let address: u16 = (record[1] as u16) * 256 + (record[2] as u16);
    let kind: u8 = record[3];
    let data: &[u8] = &record[4..4 + count];
    let ghost start = out@;
    if checksum(record) != 0 {
        push_notice(out, "; checksum mismatch at line ".as_bytes(), line_no);
    }
    let ghost warned = out@;
    assert(warned == start + (if checksum_ok(record@) {
        Seq::<u8>::empty()
    } else {
        checksum_notice(line_no as nat)
    })) by {
        if checksum_ok(record@) {
            assert(start + Seq::<u8>::empty() =~= start);
        }
    }
    if kind == 0 {
        write_data_lines(out, base, address, data);
        assert(out@ =~= start + (warned.subrange(start.len() as int, warned.len() as int)
            + data_rows(base, address, data@)));
        (base, false)
    } else if kind == 1 {
        (base, true)
    } else if kind == 2 && data.len() >= 2 {
        ((data[0] as u32 * 256 + data[1] as u32) * 16, false)
    } else if kind == 4 && data.len() >= 2 {
        ((data[0] as u32 * 256 + data[1] as u32) * 65536, false)
    } else {
        (base, false)
    }
}

/// Appends what a line produces, given its text with surrounding whitespace
/// removed, and returns the base address after it and whether it ends the
/// expansion (see [`text_effect`]).
fn expand_text(out: &mut Vec<u8>, text: &[u8], line_no: usize, base: u32) -> (r: (u32, bool))
    ensures
        ({
            let e = text_effect(text@, line_no as nat, base);
            &&& final(out)@ == old(out)@ + e.0
            &&& r.0 == e.1
            &&& r.1 == e.2
        }),
{
    if text.len() == 0 {
        assert(old(out)@ + Seq::<u8>::empty() =~= old(out)@);
        return (base, false);
    }
    if text[0] != 58u8 {
        push_slice(out, text);
        out.push(10u8);
        assert(out@ =~= old(out)@ + text@.push(10u8));
        return (base, false);
    }
    let body: &[u8] = &text[1..text.len()];
    match bytes_from_hex(body) {
        Ok(record) => {
            if record.len() >= 5 {
                expand_record(out, record.as_slice(), line_no, base)
            } else {
                push_notice(out, "; invalid hex line ".as_bytes(), line_no);
                (base, false)
            }
        },
        Err(_) => {
            push_notice(out, "; invalid hex line ".as_bytes(), line_no);
            (base, false)
        },
    }
}

/// Why an expansion failed.
#[derive(Debug, Clone, Copy, PartialEq, Eq, Structural)]
pub enum ExpandError {
    /// A line of the input is not valid UTF-8.
    InvalidUtf8,
}

/// Expands Intel HEX text: appends to `output` the expansion of the lines of
/// `input` (see [`expansion`]).  Lines are separated by line feeds; each is
/// trimmed of surrounding whitespace (which also removes a carriage return
/// before the line feed).  Empty lines are skipped, other lines that do not
/// start with a colon are copied, data records become address-and-byte
/// rows, extended segment and linear address records set the base address,
/// and an end-of-file record ends the expansion.  Malformed records and
/// checksum mismatches are reported in comment lines that carry the line
/// number.  Fails, after appending the expansion of the lines before it, on
/// the first line read that is not valid UTF-8.
pub fn expand(input: &[u8], output: &mut Vec<u8>) -> (r: Result<(), ExpandError>)
    ensures
        final(output)@ == old(output)@ + expansion(input@).0,
        r is Ok <==> expansion(input@).1 != Finish::InvalidText,
{
    let mut pos: usize = 0;
    let mut line_no: usize = 1;
    let mut base: u32 = 0;
    assert(old(output)@ + expansion(input@).0 =~= output@ + run(input@, 0, 1, 0).0);
    while pos < input.len()
        invariant
            pos <= input.len(),
            1 <= line_no <= pos + 1,
            old(output)@ + expansion(input@).0 == output@ + run(input@, pos as int, line_no as nat, base).0,
            expansion(input@).1 == run(input@, pos as int, line_no as nat, base).1,
        decreases input.len() - pos,
    {
        let end = find_line_end(input, pos);
        proof {
            lemma_line_end_bounds(input@, pos as int);
        }
        let line: &[u8] = &input[pos..end];
        match trimmed_line(line) {
            None => {
                assert(old(output)@ + expansion(input@).0 =~= output@);
                return Err(ExpandError::InvalidUtf8);
            },
            Some(text) => {
                let ghost before = output@;
                let ghost e = line_effect(line@, line_no as nat, base);
                let (next_base, stop) = expand_text(output, text, line_no, base);
                assert(output@ == before + e.0);
                if stop {
                    assert(run(input@, pos as int, line_no as nat, base) == (e.0, Finish::EndRecord));
                    return Ok(());
                }
                assert(run(input@, pos as int, line_no as nat, base) == (
                    e.0 + run(input@, end + 1, line_no as nat + 1, e.1).0,
                    run(input@, end + 1, line_no as nat + 1, e.1).1,
                ));
                assert(before + (e.0 + run(input@, end + 1, line_no as nat + 1, e.1).0) =~= output@
                    + run(input@, end + 1, line_no as nat + 1, e.1).0);
                if end >= input.len() - 1 {
                    assert(output@ + Seq::<u8>::empty() =~= output@);
                    return Ok(());
                }
                pos = end + 1;
                line_no = line_no + 1;
                base = next_base;
            },
        }
    }
    assert(old(output)@ + expansion(input@).0 =~= output@);
    Ok(())
}

/// A line that ends inside `a` ends at the same place when more input
/// follows `a`, provided `a` ends with a line feed.
proof fn lemma_line_end_extend(a: Seq<u8>, b: Seq<u8>, pos: int)
    requires
        0 <= pos < a.len(),
        a.last() == 10u8,
    ensures
        line_end(a + b, pos) == line_end(a, pos),
        line_end(a, pos) < a.len(),
    decreases a.len() - pos,
{
    if a[pos] != 10u8 {
        assert(pos + 1 < a.len());
        lemma_line_end_extend(a, b, pos + 1);
    }
}

/// Reading the lines of `a` from `pos` on goes the same way whether or not
/// more input follows `a` (which ends with a line feed): when it ends before
/// `a` does, the result is the same; otherwise its output is a prefix.
proof fn lemma_run_extend(a: Seq<u8>, b: Seq<u8>, pos: int, line_no: nat, base: u32)
    requires
        0 <= pos <= a.len(),
        a.len() > 0 ==> a.last() == 10u8,
    ensures
        run(a, pos, line_no, base).1 != Finish::Exhausted ==> run(a + b, pos, line_no, base) == run(
            a,
            pos,
            line_no,
            base,
        ),
        run(a, pos, line_no, base).0.is_prefix_of(run(a + b, pos, line_no, base).0),
    decreases a.len() - pos,
{
    if pos == a.len() {
        assert(Seq::<u8>::empty().is_prefix_of(run(a + b, pos, line_no, base).0));
    } else {
        lemma_line_end_extend(a, b, pos);
        lemma_line_end_bounds(a, pos);
        let end = line_end(a, pos);
        assert((a + b).subrange(pos, end) =~= a.subrange(pos, end));
        let line = a.subrange(pos, end);
        if valid_utf8(line) {
            let e = line_effect(line, line_no, base);
            if !e.2 {
                lemma_run_extend(a, b, end + 1, line_no + 1, e.1);
                let ra = run(a, end + 1, line_no + 1, e.1).0;
                let rb = run(a + b, end + 1, line_no + 1, e.1).0;
                assert((e.0 + ra).is_prefix_of(e.0 + rb)) by {
                    assert forall|i: int| 0 <= i < (e.0 + ra).len() implies (e.0 + ra)[i] == (e.0
                        + rb)[i] by {
                        if i >= e.0.len() {
                            assert(ra[i - e.0.len()] == rb[i - e.0.len()]);
                        }
                    }
                }
            }
        }
    }
}

/// Nothing after the line that ends an expansion is ever read: when `a`
/// ends with a line feed and its expansion stops at an end-of-file record
/// (or at a line that is not UTF-8), appending any input `b` to it changes
/// neither the output nor the outcome.
pub proof fn law_nothing_read_after_end(a: Seq<u8>, b: Seq<u8>)
    requires
        a.len() > 0,
        a.last() == 10u8,
        expansion(a).1 != Finish::Exhausted,
    ensures
        expansion(a + b) == expansion(a),
{
    lemma_run_extend(a, b, 0, 1, 0);
}

/// Expansion works line by line: the output for an input made of whole
/// lines is a prefix of the output for that input followed by anything.
pub proof fn law_output_grows_with_input(a: Seq<u8>, b: Seq<u8>)
    requires
        a.len() > 0 ==> a.last() == 10u8,
    ensures
        expansion(a).0.is_prefix_of(expansion(a + b).0),
{
    lemma_run_extend(a, b, 0, 1, 0);
}

/// Only a well-formed end-of-file record ends an expansion: a line whose
/// effect stops the expansion is a colon followed by a record whose length
/// matches its byte count and whose type is 1.
pub proof fn law_only_end_record_stops(t: Seq<u8>, line_no: nat, base: u32)
    requires
        text_effect(t, line_no, base).2,
    ensures
        t.len() > 0,
        t[0] == 58u8,
        ({
            let record = hex_decode(t.subrange(1, t.len() as int)).unwrap();
            &&& hex_decode(t.subrange(1, t.len() as int)) is Some
            &&& record.len() >= 5
            &&& record.len() == record[0] + 5
            &&& record[3] == 1
        }),
{
}

/// The number of lines of `input` from position `pos` on.
pub open spec fn line_count(input: Seq<u8>, pos: int) -> nat
    decreases input.len() + 1 - pos,
{
    if pos < 0 || pos >= input.len() {
        0
    } else {
        proof {
            lemma_line_end_bounds(input, pos);
        }
        1 + line_count(input, line_end(input, pos) + 1)
    }
}

/// Where the line that starts right after `x` ends, counted in `x + y`, is
/// where the corresponding line of `y` ends, shifted by the length of `x`.
proof fn lemma_line_end_shift(x: Seq<u8>, y: Seq<u8>, i: int)
    requires
        0 <= i <= y.len(),
    ensures
        line_end(x + y, x.len() + i) == x.len() + line_end(y, i),
    decreases y.len() - i,
{
    if i < y.len() && y[i] != 10u8 {
        assert((x + y)[x.len() + i] == y[i]);
        lemma_line_end_shift(x, y, i + 1);
    }
}

/// Reading the lines of `x + y` after `x` goes the same way as reading
/// those of `y`.
proof fn lemma_run_shift(x: Seq<u8>, y: Seq<u8>, i: int, line_no: nat, base: u32)
    requires
        0 <= i,
    ensures
        run(x + y, x.len() + i, line_no, base) == run(y, i, line_no, base),
    decreases y.len() + 1 - i,
{
    if i < y.len() {
        lemma_line_end_shift(x, y, i);
        lemma_line_end_bounds(y, i);
        let end = line_end(y, i);
        assert((x + y).subrange(x.len() + i, x.len() + end) =~= y.subrange(i, end));
        let line = y.subrange(i, end);
        if valid_utf8(line) {
            let e = line_effect(line, line_no, base);
            if !e.2 {
                lemma_run_shift(x, y, end + 1, line_no + 1, e.1);
            }
        }
    }
}

/// The line `l` (no line feed in it) that starts at `before.len()` in
/// `before + l + LF + after` ends right after `l`.
proof fn lemma_line_end_of_inserted(before: Seq<u8>, l: Seq<u8>, after: Seq<u8>)
    requires
        forall|i: int| 0 <= i < l.len() ==> l[i] != 10u8,
    ensures
        line_end(before + l + seq![10u8] + after, before.len() as int) == before.len() + l.len(),
{
    let rest = l + seq![10u8] + after;
    assert(before + l + seq![10u8] + after =~= before + rest);
    assert forall|i: int| 0 <= i < l.len() implies rest[i] != 10u8 by {
        assert(rest[i] == l[i]);
    }
    assert(rest[l.len() as int] == 10u8);
    lemma_line_end_in(rest, 0, l.len() as int);
    lemma_line_end_shift(before, rest, 0);
}

/// A line that starts at `pos` and has no line feed before `stop`, where a
/// line feed stands, ends at `stop`.
proof fn lemma_line_end_in(s: Seq<u8>, pos: int, stop: int)
    requires
        0 <= pos <= stop < s.len(),
        s[stop] == 10u8,
        forall|i: int| pos <= i < stop ==> s[i] != 10u8,
    ensures
        line_end(s, pos) == stop,
    decreases stop - pos,
{
    if pos < stop {
        lemma_line_end_in(s, pos + 1, stop);
    }
}

/// A line that reads as `:` and the hexadecimal text of `record` (once
/// trimmed) has the effect of that record.
pub open spec fn is_record_line(line: Seq<u8>, record: Seq<u8>) -> bool {
    &&& valid_utf8(line)
    &&& forall|i: int| 0 <= i < line.len() ==> line[i] != 10u8
    &&& trimmed_bytes(line).len() >= 1
    &&& trimmed_bytes(line)[0] == 58u8
    &&& hex_decode(trimmed_bytes(line).subrange(1, trimmed_bytes(line).len() as int)) == Some(
        record,
    )
}

/// `bad` and `good` are the same length-correct record except for the last
/// (checksum) byte, and only `good` passes its checksum.
pub open spec fn differ_in_checksum(bad: Seq<u8>, good: Seq<u8>) -> bool {
    &&& bad.len() >= 5
    &&& bad.len() == bad[0] + 5
    &&& good.len() == bad.len()
    &&& forall|i: int| 0 <= i < bad.len() - 1 ==> bad[i] == good[i]
    &&& byte_sum(bad) % 256 != 0
    &&& byte_sum(good) % 256 == 0
}

/// On one line, a record that fails its checksum has the effect of the same
/// record with its checksum corrected, with the notice in front.
proof fn lemma_mismatch_effect(l1: Seq<u8>, r1: Seq<u8>, l2: Seq<u8>, r2: Seq<u8>, line_no: nat, base: u32)
    requires
        is_record_line(l1, r1),
        is_record_line(l2, r2),
        differ_in_checksum(r1, r2),
    ensures
        ({
            let e1 = line_effect(l1, line_no, base);
            let e2 = line_effect(l2, line_no, base);
            &&& e1.0 == checksum_notice(line_no) + e2.0
            &&& e1.1 == e2.1
            &&& e1.2 == e2.2
        }),
{
    let count = r1[0] as int;
    assert(r2[0] == r1[0]);
    assert(r2[1] == r1[1]);
    assert(r2[2] == r1[2]);
    assert(r2[3] == r1[3]);
    assert(r1.subrange(4, 4 + count) =~= r2.subrange(4, 4 + count));
    let data = r1.subrange(4, 4 + count);
    if count >= 2 {
        assert(data[0] == r2.subrange(4, 4 + count)[0]);
        assert(data[1] == r2.subrange(4, 4 + count)[1]);
    }
    assert(Seq::<u8>::empty() + data_rows(base, be16(r1[1], r1[2]) as u16, data) =~= data_rows(
        base,
        be16(r1[1], r1[2]) as u16,
        data,
    ));
}

/// The line after `before` in the two inputs of
/// [`law_checksum_mismatch_only_adds_notice`].
proof fn lemma_mismatch_at_line(
    before: Seq<u8>,
    l1: Seq<u8>,
    r1: Seq<u8>,
    l2: Seq<u8>,
    r2: Seq<u8>,
    after: Seq<u8>,
    line_no: nat,
    base: u32,
)
    requires
        is_record_line(l1, r1),
        is_record_line(l2, r2),
        differ_in_checksum(r1, r2),
    ensures
        ({
            let pos = before.len() as int;
            let o1 = run(before + l1 + seq![10u8] + after, pos, line_no, base);
            let o2 = run(before + l2 + seq![10u8] + after, pos, line_no, base);
            &&& o1.1 == o2.1
            &&& o1.0 == checksum_notice(line_no) + o2.0
        }),
{
    let pos = before.len() as int;
    let in1 = before + l1 + seq![10u8] + after;
    let in2 = before + l2 + seq![10u8] + after;
    lemma_line_end_of_inserted(before, l1, after);
    lemma_line_end_of_inserted(before, l2, after);
    assert(in1.subrange(pos, pos + l1.len()) =~= l1);
    assert(in2.subrange(pos, pos + l2.len()) =~= l2);
    lemma_mismatch_effect(l1, r1, l2, r2, line_no, base);
    let e1 = line_effect(l1, line_no, base);
    let e2 = line_effect(l2, line_no, base);
    if e1.2 {
        assert(run(in1, pos, line_no, base).0 =~= checksum_notice(line_no) + e2.0);
    } else {
        let x1 = before + l1 + seq![10u8];
        let x2 = before + l2 + seq![10u8];
        assert(in1 =~= x1 + after);
        assert(in2 =~= x2 + after);
        lemma_run_shift(x1, after, 0, line_no + 1, e1.1);
        lemma_run_shift(x2, after, 0, line_no + 1, e2.1);
        let tail = run(after, 0, line_no + 1, e2.1);
        assert(run(in1, pos, line_no, base).0 =~= checksum_notice(line_no) + (e2.0 + tail.0));
    }
}

/// The induction behind [`law_checksum_mismatch_only_adds_notice`], from
/// position `pos` of `before`.
proof fn lemma_run_mismatch(
    before: Seq<u8>,
    l1: Seq<u8>,
    r1: Seq<u8>,
    l2: Seq<u8>,
    r2: Seq<u8>,
    after: Seq<u8>,
    pos: int,
    line_no: nat,
    base: u32,
)
    requires
        0 <= pos <= before.len(),
        before.len() > 0 ==> before.last() == 10u8,
        is_record_line(l1, r1),
        is_record_line(l2, r2),
        differ_in_checksum(r1, r2),
    ensures
        ({
            let in1 = before + l1 + seq![10u8] + after;
            let in2 = before + l2 + seq![10u8] + after;
            let p = run(before, pos, line_no, base);
            let o1 = run(in1, pos, line_no, base);
            let o2 = run(in2, pos, line_no, base);
            &&& p.1 != Finish::Exhausted ==> o1 == p && o2 == p
            &&& p.1 == Finish::Exhausted ==> {
                &&& o1.1 == o2.1
                &&& p.0.is_prefix_of(o2.0)
                &&& o1.0 == p.0 + checksum_notice(line_no + line_count(before, pos)) + o2.0.subrange(
                    p.0.len() as int,
                    o2.0.len() as int,
                )
            }
        }),
    decreases before.len() - pos,
{
    let in1 = before + l1 + seq![10u8] + after;
    let in2 = before + l2 + seq![10u8] + after;
    let rest1 = l1 + seq![10u8] + after;
    let rest2 = l2 + seq![10u8] + after;
    assert(in1 =~= before + rest1);
    assert(in2 =~= before + rest2);
    if pos == before.len() {
        lemma_mismatch_at_line(before, l1, r1, l2, r2, after, line_no, base);
        let o2 = run(in2, pos, line_no, base);
        assert(Seq::<u8>::empty().is_prefix_of(o2.0));
        assert(o2.0.subrange(0, o2.0.len() as int) =~= o2.0);
        assert(Seq::<u8>::empty() + checksum_notice(line_no) + o2.0 =~= checksum_notice(line_no) + o2.0);
    } else {
        lemma_line_end_extend(before, rest1, pos);
        lemma_line_end_extend(before, rest2, pos);
        lemma_line_end_bounds(before, pos);
        let end = line_end(before, pos);
        assert(in1.subrange(pos, end) =~= before.subrange(pos, end));
        assert(in2.subrange(pos, end) =~= before.subrange(pos, end));
        let line = before.subrange(pos, end);
        if valid_utf8(line) {
            let e = line_effect(line, line_no, base);
            if !e.2 {
                lemma_run_mismatch(before, l1, r1, l2, r2, after, end + 1, line_no + 1, e.1);
                let p = run(before, end + 1, line_no + 1, e.1);
                let o1 = run(in1, end + 1, line_no + 1, e.1);
                let o2 = run(in2, end + 1, line_no + 1, e.1);
                if p.1 == Finish::Exhausted {
                    let k = p.0.len() as int;
                    assert((e.0 + p.0).is_prefix_of(e.0 + o2.0)) by {
                        assert forall|i: int| 0 <= i < (e.0 + p.0).len() implies (e.0 + p.0)[i] == (
                        e.0 + o2.0)[i] by {
                            if i >= e.0.len() {
                                assert(p.0[i - e.0.len()] == o2.0[i - e.0.len()]);
                            }
                        }
                    }
                    assert((e.0 + o2.0).subrange(e.0.len() + k, (e.0 + o2.0).len() as int)
                        =~= o2.0.subrange(k, o2.0.len() as int));
                    assert(e.0 + o1.0 =~= (e.0 + p.0) + checksum_notice(
                        line_no + 1 + line_count(before, end + 1),
                    ) + (e.0 + o2.0).subrange(e.0.len() + k, (e.0 + o2.0).len() as int));
                }
            }
        }
    }
}

/// A checksum mismatch only adds its notice: take an input whose line
/// after `before` is a length-correct record `bad` that fails its checksum,
/// and the same input with that line reading as `good`, the same record with
/// its checksum corrected.  When the lines of `before` are all read, the
/// expansion of the first is that of the second with
/// `; checksum mismatch at line N` inserted right before line N's own output
/// (N being the number of that line), and both end the same way: the record
/// is applied alike.  When the expansion ends inside `before`, the line is
/// never read and both expansions are that of `before`.
pub proof fn law_checksum_mismatch_only_adds_notice(
    before: Seq<u8>,
    bad_line: Seq<u8>,
    bad: Seq<u8>,
    good_line: Seq<u8>,
    good: Seq<u8>,
    after: Seq<u8>,
)
    requires
        before.len() > 0 ==> before.last() == 10u8,
        is_record_line(bad_line, bad),
        is_record_line(good_line, good),
        differ_in_checksum(bad, good),
    ensures
        ({
            let with_bad = expansion(before + bad_line + seq![10u8] + after);
            let with_good = expansion(before + good_line + seq![10u8] + after);
            let head = expansion(before);
            &&& head.1 != Finish::Exhausted ==> with_bad == head && with_good == head
            &&& head.1 == Finish::Exhausted ==> {
                &&& with_bad.1 == with_good.1
                &&& head.0.is_prefix_of(with_good.0)
                &&& with_bad.0 == head.0 + checksum_notice(1 + line_count(before, 0))
                    + with_good.0.subrange(head.0.len() as int, with_good.0.len() as int)
            }
        }),
{
    lemma_run_mismatch(before, bad_line, bad, good_line, good, after, 0, 1, 0);
}

/// The byte sum adds up over concatenation and is the byte itself for a
/// single byte: it is the sum of all the bytes.
pub proof fn law_byte_sum_is_sum(a: Seq<u8>, b: Seq<u8>, x: u8)
    ensures
        byte_sum(Seq::<u8>::empty()) == 0,
        byte_sum(seq![x]) == x as nat,
        byte_sum(a + b) == byte_sum(a) + byte_sum(b),
    decreases b.len(),
{
    assert(seq![x].drop_last() =~= Seq::<u8>::empty());
    if b.len() == 0 {
        assert(a + b =~= a);
    } else {
        law_byte_sum_is_sum(a, b.drop_last(), x);
        assert((a + b).drop_last() =~= a + b.drop_last());
    }
}

/// Only data records (type 00) produce address-and-byte rows: a
/// length-correct record of any other type produces nothing but, when its
/// bytes do not add up to zero modulo 256, the checksum notice.
pub proof fn law_only_data_records_write_rows(record: Seq<u8>, line_no: nat, base: u32)
    requires
        record.len() >= 5,
        record.len() == record[0] + 5,
        record[3] != 0,
    ensures
        record_effect(record, line_no, base).0 == (if byte_sum(record) % 256 == 0 {
            Seq::<u8>::empty()
        } else {
            checksum_notice(line_no)
        }),
{
}

/// A length-correct data record produces exactly the rows of its data at its
/// address, preceded by the checksum notice exactly when its bytes do not
/// add up to zero modulo 256; it leaves the base address unchanged.
pub proof fn law_data_record_output(record: Seq<u8>, line_no: nat, base: u32)
    requires
        record.len() >= 5,
        record.len() == record[0] + 5,
        record[3] == 0,
    ensures
        ({
            let rows = data_rows(
                base,
                (record[1] as nat * 256 + record[2] as nat) as u16,
                record.subrange(4, record.len() - 1),
            );
            &&& byte_sum(record) % 256 == 0 ==> record_effect(record, line_no, base).0 == rows
            &&& byte_sum(record) % 256 != 0 ==> record_effect(record, line_no, base).0
                == checksum_notice(line_no) + rows
            &&& record_effect(record, line_no, base).1 == base
            &&& !record_effect(record, line_no, base).2
        }),
{
}

/// The checksum notice comes first exactly for records whose bytes do not
/// add up to zero modulo 256: then the output starts with it; otherwise the
/// output is what the same record produces without any notice.
pub proof fn law_checksum_notice_iff_bad_sum(record: Seq<u8>, line_no: nat, base: u32)
    requires
        record.len() >= 5,
        record.len() == record[0] + 5,
    ensures
        byte_sum(record) % 256 != 0 ==> ({
            let out = record_effect(record, line_no, base).0;
            let notice = checksum_notice(line_no);
            out.len() >= notice.len() && out.subrange(0, notice.len() as int) == notice
        }),
        byte_sum(record) % 256 == 0 ==> record_effect(record, line_no, base).0 == (if record[3] == 0 {
            data_rows(
                base,
                (record[1] as nat * 256 + record[2] as nat) as u16,
                record.subrange(4, record.len() - 1),
            )
        } else {
            Seq::<u8>::empty()
        }),
{
    let out = record_effect(record, line_no, base).0;
    let notice = checksum_notice(line_no);
    if byte_sum(record) % 256 != 0 {
        assert(out.subrange(0, notice.len() as int) =~= notice);
    } else if record[3] == 0 {
        assert(out =~= data_rows(
            base,
            (record[1] as nat * 256 + record[2] as nat) as u16,
            record.subrange(4, record.len() - 1),
        ));
    }
}

/// An extended linear address record (type 04) with at least two data bytes
/// `d0 d1` sets the base address to `(d0 * 256 + d1) * 65536`, whatever the
/// base was before it, and does not end the expansion.
pub proof fn law_linear_address_sets_base(record: Seq<u8>, line_no: nat, base: u32, other: u32)
    requires
        record.len() == record[0] + 5,
        record[0] >= 2,
        record[3] == 4,
    ensures
        record_effect(record, line_no, base).1 as nat == (record[4] as nat * 256 + record[5] as nat)
            * 65536,
        record_effect(record, line_no, base).1 == record_effect(record, line_no, other).1,
        !record_effect(record, line_no, base).2,
{
}

/// An extended segment address record (type 02) with at least two data
/// bytes `d0 d1` sets the base address to `(d0 * 256 + d1) * 16`, whatever
/// the base was before it, and does not end the expansion.
pub proof fn law_segment_address_sets_base(record: Seq<u8>, line_no: nat, base: u32, other: u32)
    requires
        record.len() == record[0] + 5,
        record[0] >= 2,
        record[3] == 2,
    ensures
        record_effect(record, line_no, base).1 as nat == (record[4] as nat * 256 + record[5] as nat)
            * 16,
        record_effect(record, line_no, base).1 == record_effect(record, line_no, other).1,
        !record_effect(record, line_no, base).2,
{
}

/// Every other record keeps the base address: only type 02 and type 04
/// records with at least two data bytes change it, and only type 01 records
/// end the expansion.
pub proof fn law_other_records_keep_base(record: Seq<u8>, line_no: nat, base: u32)
    requires
        record.len() >= 5,
    ensures
        !((record[3] == 2 || record[3] == 4) && record[0] >= 2 && record.len() == record[0] + 5)
            ==> record_effect(record, line_no, base).1 == base,
        record_effect(record, line_no, base).2 <==> (record.len() == record[0] + 5 && record[3]
            == 1),
{
}

/// Row `k + 1` from `base` is at the address of row `k` from `base + 16`.
proof fn lemma_row_address_shift(base: u32, address: u16, k: nat)
    ensures
        row_address(base, address, k + 1) == row_address(
            ((base as nat + 16) % 0x1_0000_0000) as u32,
            address,
            k,
        ),
{
    let x: int = address as int + 16 * k;
    let y: int = base as int + 16;
    lemma_add_mod_noop_right(x, y, 0x1_0000_0000);
    assert(((base as nat + 16) % 0x1_0000_0000) as u32 as int == y % 0x1_0000_0000);
    assert(x + y == base as nat + address as nat + 16 * (k + 1));
}

/// Rows after the first sixteen bytes are the rows of the remaining bytes
/// with the base moved on by sixteen.
#[verifier::rlimit(30)]
proof fn lemma_rows_from_shift(base: u32, address: u16, data: Seq<u8>, k: nat)
    requires
        data.len() > 16,
    ensures
        rows_from(base, address, data, k + 1) == rows_from(
            ((base as nat + 16) % 0x1_0000_0000) as u32,
            address,
            data.subrange(16, data.len() as int),
            k,
        ),
    decreases data.len() + 16 - 16 * k,
{
    let moved = ((base as nat + 16) % 0x1_0000_0000) as u32;
    let rest = data.subrange(16, data.len() as int);
    if 16 * (k + 1) < data.len() {
        lemma_rows_from_shift(base, address, data, k + 1);
        lemma_row_address_shift(base, address, k);
        let start: int = (16 * (k + 1)) as int;
        let end = if start + 16 <= data.len() { start + 16 } else { data.len() as int };
        assert(data.subrange(start as int, end) =~= rest.subrange(start - 16, end - 16));
    }
}

/// How a data record's payload is laid out in rows: nothing for no bytes,
/// one row at `base + address` for up to sixteen bytes, and otherwise a row
/// of the first sixteen bytes followed by the rows of the rest, sixteen
/// addresses further on (addresses wrap around at 2^32).
pub proof fn law_rows_of_sixteen(base: u32, address: u16, data: Seq<u8>)
    ensures
        data.len() == 0 ==> data_rows(base, address, data) == Seq::<u8>::empty(),
        0 < data.len() <= 16 ==> data_rows(base, address, data) == row(
            (base as nat + address as nat) % 0x1_0000_0000,
            data,
        ),
        data.len() > 16 ==> data_rows(base, address, data) == row(
            (base as nat + address as nat) % 0x1_0000_0000,
            data.subrange(0, 16),
        ) + data_rows(
            ((base as nat + 16) % 0x1_0000_0000) as u32,
            address,
            data.subrange(16, data.len() as int),
        ),
{
    if 0 < data.len() <= 16 {
        assert(data.subrange(0, data.len() as int) =~= data);
        assert(rows_from(base, address, data, 1) == Seq::<u8>::empty());
        assert(row(row_address(base, address, 0), data) + Seq::<u8>::empty() =~= row(
            row_address(base, address, 0),
            data,
        ));
    } else if data.len() > 16 {
        lemma_rows_from_shift(base, address, data, 0);
    }
}

/// What a line does according to its trimmed text: an empty line does
/// nothing; a line not starting with a colon is copied with a line feed; a
/// colon followed by text that is not hexadecimal pairs, or by fewer than
/// five bytes, gives the invalid-line notice; a record whose length
/// disagrees with its byte count gives the invalid-length notice.  None of
/// these changes the base address or ends the expansion.
pub proof fn law_line_outcomes(t: Seq<u8>, line_no: nat, base: u32)
    ensures
        t.len() == 0 ==> text_effect(t, line_no, base) == (Seq::<u8>::empty(), base, false),
        t.len() > 0 && t[0] != 58u8 ==> text_effect(t, line_no, base) == (t + seq![10u8], base, false),
        t.len() > 0 && t[0] == 58u8 && (hex_decode(t.subrange(1, t.len() as int)) is None
            || hex_decode(t.subrange(1, t.len() as int))->0.len() < 5) ==> text_effect(
            t,
            line_no,
            base,
        ) == (invalid_line_notice(line_no), base, false),
        t.len() > 0 && t[0] == 58u8 && hex_decode(t.subrange(1, t.len() as int)) is Some && ({
            let r = hex_decode(t.subrange(1, t.len() as int))->0;
            r.len() >= 5 && r.len() != r[0] + 5
        }) ==> text_effect(t, line_no, base) == (invalid_length_notice(line_no), base, false),
{
    if t.len() > 0 && t[0] != 58u8 {
        assert(t.push(10u8) =~= t + seq![10u8]);
    }
}
} // verus!
