//! The text of the log lines: one line per visited entry in the trace log,
//! one line per finding in the findings log, and the final runtime line.
//! Lines are built as ASCII bytes (written out as their codes, since byte
//! literals are unavailable here); timings are decimal milliseconds.
use vstd::prelude::*;
use crate::bytes::{spec_dec, to_decimal, append_bytes};

verus! {

/// `"File: "`
pub open spec fn lit_file() -> Seq<u8> {
    seq![70u8, 105u8, 108u8, 101u8, 58u8, 32u8]
}

/// `" - Time: "`
pub open spec fn lit_time() -> Seq<u8> {
    seq![32u8, 45u8, 32u8, 84u8, 105u8, 109u8, 101u8, 58u8, 32u8]
}

/// `"ms"`
pub open spec fn lit_ms() -> Seq<u8> {
    seq![109u8, 115u8]
}

/// `"Directory: "`
pub open spec fn lit_directory() -> Seq<u8> {
    seq![68u8, 105u8, 114u8, 101u8, 99u8, 116u8, 111u8, 114u8, 121u8, 58u8, 32u8]
}

/// `"Unreadable file: "`
pub open spec fn lit_unreadable() -> Seq<u8> {
    seq![
        85u8, 110u8, 114u8, 101u8, 97u8, 100u8, 97u8, 98u8, 108u8, 101u8, 32u8, 102u8, 105u8,
        108u8, 101u8, 58u8, 32u8,
    ]
}

/// `"Total runtime: "`
pub open spec fn lit_total() -> Seq<u8> {
    seq![
        84u8, 111u8, 116u8, 97u8, 108u8, 32u8, 114u8, 117u8, 110u8, 116u8, 105u8, 109u8, 101u8,
        58u8, 32u8,
    ]
}

/// `"Risky file: "`
pub open spec fn lit_risky() -> Seq<u8> {
    seq![82u8, 105u8, 115u8, 107u8, 121u8, 32u8, 102u8, 105u8, 108u8, 101u8, 58u8, 32u8]
}

/// `" - Signature: "`
pub open spec fn lit_signature() -> Seq<u8> {
    seq![
        32u8, 45u8, 32u8, 83u8, 105u8, 103u8, 110u8, 97u8, 116u8, 117u8, 114u8, 101u8, 58u8, 32u8,
    ]
}

/// `"File: {path} - Time: {ms}ms"`
pub open spec fn file_line_of(path: Seq<u8>, ms: nat) -> Seq<u8> {
    lit_file() + path + lit_time() + spec_dec(ms) + lit_ms()
}

/// `"Directory: {path} - Time: {ms}ms"`
pub open spec fn dir_line_of(path: Seq<u8>, ms: nat) -> Seq<u8> {
    lit_directory() + path + lit_time() + spec_dec(ms) + lit_ms()
}

/// `"Unreadable file: {path}"`
pub open spec fn unreadable_line_of(path: Seq<u8>) -> Seq<u8> {
    lit_unreadable() + path
}

/// `"Total runtime: {ms}ms"`
pub open spec fn total_line_of(ms: nat) -> Seq<u8> {
    lit_total() + spec_dec(ms) + lit_ms()
}

/// `"Risky file: {path} - Signature: {id}"`
pub open spec fn finding_line_of(path: Seq<u8>, id: Seq<u8>) -> Seq<u8> {
    lit_risky() + path + lit_signature() + id
}

/// Pushes each byte of `lit` onto `out`.
fn push_lit(out: &mut Vec<u8>, lit: &[u8])
    ensures
        final(out)@ == old(out)@ + lit@,
{
    let mut i: usize = 0;
    while i < lit.len()
        invariant
            0 <= i <= lit@.len(),
            out@ == old(out)@ + lit@.subrange(0, i as int),
        decreases lit@.len() - i,
    {
        out.push(lit[i]);
        assert(out@ =~= old(out)@ + lit@.subrange(0, i + 1 as int));
        i = i + 1;
    }
    assert(out@ =~= old(out)@ + lit@);
}

/// `" - Time: {ms}ms"`, the shared tail of the two trace lines.
fn push_time_tail(out: &mut Vec<u8>, ms: u64)
    ensures
        final(out)@ == old(out)@ + lit_time() + spec_dec(ms as nat) + lit_ms(),
{
    // " - Time: "
    let sep: [u8; 9] = [32, 45, 32, 84, 105, 109, 101, 58, 32];
    push_lit(out, &sep);
    assert(out@ =~= old(out)@ + lit_time());
    let dec = to_decimal(ms);
    append_bytes(out, &dec);
    // "ms"
    out.push(109);
    out.push(115);
    assert(out@ =~= old(out)@ + lit_time() + spec_dec(ms as nat) + lit_ms());
}

/// The trace line for one visited file.
pub fn format_file_line(path: &Vec<u8>, ms: u64) -> (r: Vec<u8>)
    ensures
        r@ == file_line_of(path@, ms as nat),
{
    let mut out: Vec<u8> = Vec::new();
    // "File: "
    let lit: [u8; 6] = [70, 105, 108, 101, 58, 32];
    push_lit(&mut out, &lit);
    assert(out@ =~= lit_file());
    append_bytes(&mut out, path);
    push_time_tail(&mut out, ms);
    assert(out@ =~= file_line_of(path@, ms as nat));
    out
}

/// The trace line for one visited directory.
pub fn format_dir_line(path: &Vec<u8>, ms: u64) -> (r: Vec<u8>)
    ensures
        r@ == dir_line_of(path@, ms as nat),
{
    let mut out: Vec<u8> = Vec::new();
    // "Directory: "
    let lit: [u8; 11] = [68, 105, 114, 101, 99, 116, 111, 114, 121, 58, 32];
    push_lit(&mut out, &lit);
    assert(out@ =~= lit_directory());
    append_bytes(&mut out, path);
    push_time_tail(&mut out, ms);
    assert(out@ =~= dir_line_of(path@, ms as nat));
    out
}

/// The trace line for a file that could not be read.
pub fn format_unreadable_line(path: &Vec<u8>) -> (r: Vec<u8>)
    ensures
        r@ == unreadable_line_of(path@),
{
    let mut out: Vec<u8> = Vec::new();
    // "Unreadable file: "
    let lit: [u8; 17] = [
        85, 110, 114, 101, 97, 100, 97, 98, 108, 101, 32, 102, 105, 108, 101, 58, 32,
    ];
    push_lit(&mut out, &lit);
    assert(out@ =~= lit_unreadable());
    append_bytes(&mut out, path);
    assert(out@ =~= unreadable_line_of(path@));
    out
}

/// The final trace line with the whole scan's wall-clock time.
pub fn format_total_line(ms: u64) -> (r: Vec<u8>)
    ensures
        r@ == total_line_of(ms as nat),
{
    let mut out: Vec<u8> = Vec::new();
    // "Total runtime: "
    let lit: [u8; 15] = [84, 111, 116, 97, 108, 32, 114, 117, 110, 116, 105, 109, 101, 58, 32];
    push_lit(&mut out, &lit);
    assert(out@ =~= lit_total());
    let dec = to_decimal(ms);
    append_bytes(&mut out, &dec);
    // "ms"
    out.push(109);
    out.push(115);
    assert(out@ =~= total_line_of(ms as nat));
    out
}

/// The findings-log line for one flagged path.
pub fn format_finding_line(path: &Vec<u8>, id: &Vec<u8>) -> (r: Vec<u8>)
    ensures
        r@ == finding_line_of(path@, id@),
{
    let mut out: Vec<u8> = Vec::new();
    // "Risky file: "
    let lit: [u8; 12] = [82, 105, 115, 107, 121, 32, 102, 105, 108, 101, 58, 32];
    push_lit(&mut out, &lit);
    assert(out@ =~= lit_risky());
    append_bytes(&mut out, path);
    // " - Signature: "
    let sep: [u8; 14] = [32, 45, 32, 83, 105, 103, 110, 97, 116, 117, 114, 101, 58, 32];
    push_lit(&mut out, &sep);
    append_bytes(&mut out, id);
    assert(out@ =~= finding_line_of(path@, id@));
    out
}

} // verus!
