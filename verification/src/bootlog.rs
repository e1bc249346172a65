//! Persistent boot trace.
//!
//! Every line is kept in memory; while the log is in write-through mode
//! (early boot) each line is also handed out to be appended to the ESP copy
//! at once, up to a 64 KiB cap on what one boot writes there.  In buffered
//! mode (menu phase) lines only accumulate and the whole buffer is written
//! on flush.  The file operations themselves belong to the caller; this
//! module decides what is written and keeps the accounting.
use vstd::prelude::*;

use crate::bls::{padded, push_padded};
use crate::text::{chars_of, string_of, utf8_len};

verus! {

/// Where the trace lives on the ESP.
pub const LOG_PATH: &'static str = "/EFI/LamBoot/reports/boot.log";

/// Cap, in bytes, on what one boot appends to the ESP copy.
pub const MAX_LOG_SIZE: usize = 65536;

/// A wall-clock reading, as the firmware clock reports it.
#[derive(Clone, Copy, Debug, PartialEq, Eq)]
pub struct Timestamp {
    pub year: u16,
    pub month: u8,
    pub day: u8,
    pub hour: u8,
    pub minute: u8,
    pub second: u8,
}

/// `YYYY-MM-DDTHH:MM:SS`, each field zero-padded; `??:??:??` when the
/// clock could not be read.
pub open spec fn timestamp_text(t: Option<Timestamp>) -> Seq<char> {
    match t {
        Some(t) => padded(t.year as nat, 4) + seq!['-'] + padded(t.month as nat, 2) + seq!['-']
            + padded(t.day as nat, 2) + seq!['T'] + padded(t.hour as nat, 2) + seq![':']
            + padded(t.minute as nat, 2) + seq![':'] + padded(t.second as nat, 2),
        None => seq!['?', '?', ':', '?', '?', ':', '?', '?'],
    }
}

/// One trace line: `[timestamp] LEVEL: message` and a line feed.
pub open spec fn line_text(ts: Seq<char>, level: Seq<char>, msg: Seq<char>) -> Seq<char> {
    seq!['['] + ts + seq![']', ' '] + level + seq![':', ' '] + msg + seq!['\n']
}

/// The two header lines that open the trace of a boot, and a blank line.
pub open spec fn header_text(version: Seq<char>, arch: Seq<char>, ts: Seq<char>) -> Seq<char> {
    "=== LamBoot "@ + version + " ("@ + arch + ") boot log ===\n=== "@ + ts + " ===\n\n"@
}

fn push_str(out: &mut Vec<char>, s: &str)
    ensures
        final(out)@ == old(out)@ + s@,
{
    let v = chars_of(s);
    let ghost before = out@;
    let mut k: usize = 0;
    while k < v.len()
        invariant
            k <= v@.len(),
            out@ == before + v@.subrange(0, k as int),
        decreases v@.len() - k,
    {
        out.push(v[k]);
        assert(v@.subrange(0, k + 1) == v@.subrange(0, k as int).push(v@[k as int]));
        k += 1;
    }
    assert(v@.subrange(0, v@.len() as int) == v@);
}

/// Renders a clock reading for the trace.
pub fn format_timestamp(t: Option<Timestamp>) -> (r: String)
    ensures
        r@ == timestamp_text(t),
{
    let mut out: Vec<char> = Vec::new();
    match t {
        Some(t) => {
            push_padded(&mut out, t.year as u32, 4);
            out.push('-');
            push_padded(&mut out, t.month as u32, 2);
            out.push('-');
            push_padded(&mut out, t.day as u32, 2);
            out.push('T');
            push_padded(&mut out, t.hour as u32, 2);
            out.push(':');
            push_padded(&mut out, t.minute as u32, 2);
            out.push(':');
            push_padded(&mut out, t.second as u32, 2);
            assert(out@ =~= timestamp_text(Some(t)));
        },
        None => {
            out.push('?');
            out.push('?');
            out.push(':');
            out.push('?');
            out.push('?');
            out.push(':');
            out.push('?');
            out.push('?');
            assert(out@ =~= timestamp_text(None));
        },
    }
    string_of(&out)
}

/// Renders one trace line.
pub fn format_line(timestamp: &str, level: &str, message: &str) -> (r: String)
    ensures
        r@ == line_text(timestamp@, level@, message@),
{
    let mut out: Vec<char> = Vec::new();
    out.push('[');
    push_str(&mut out, timestamp);
    out.push(']');
    out.push(' ');
    push_str(&mut out, level);
    out.push(':');
    out.push(' ');
    push_str(&mut out, message);
    out.push('\n');
    assert(out@ =~= line_text(timestamp@, level@, message@));
    string_of(&out)
}

/// Renders the header that opens the trace of a boot.
pub fn format_header(version: &str, arch: &str, timestamp: &str) -> (r: String)
    ensures
        r@ == header_text(version@, arch@, timestamp@),
{
    let mut out: Vec<char> = Vec::new();
    push_str(&mut out, "=== LamBoot ");
    push_str(&mut out, version);
    push_str(&mut out, " (");
    push_str(&mut out, arch);
    push_str(&mut out, ") boot log ===\n=== ");
    push_str(&mut out, timestamp);
    push_str(&mut out, " ===\n\n");
    assert(out@ =~= header_text(version@, arch@, timestamp@));
    string_of(&out)
}

/// The in-memory trace and its ESP accounting.
pub struct BootLog {
    buffer: String,
    write_through: bool,
    written: usize,
}

pub struct BootLogView {
    /// Everything logged since the last `start`, in order.
    pub buffer: Seq<char>,
    /// Whether lines are mirrored to the ESP as they come.
    pub write_through: bool,
    /// Bytes appended to the ESP copy in this boot.
    pub written: nat,
}

impl View for BootLog {
    type V = BootLogView;

    closed spec fn view(&self) -> BootLogView {
        BootLogView {
            buffer: self.buffer@,
            write_through: self.write_through,
            written: self.written as nat,
        }
    }
}

/// Whether a line of `len` bytes still fits in the ESP cap after `written`.
pub open spec fn fits(written: nat, len: nat) -> bool {
    written + len <= MAX_LOG_SIZE
}

impl BootLog {
    /// An empty trace in write-through mode.
    pub fn new() -> (r: Self)
        ensures
            r@.buffer == Seq::<char>::empty(),
            r@.write_through,
            r@.written == 0,
    {
        BootLog { buffer: String::new(), write_through: true, written: 0 }
    }

    fn fits_exec(&self, line: &str) -> (b: bool)
        ensures
            b == fits(self@.written, utf8_len(line@)),
    {
        let n = line.as_bytes().len();
        self.written <= MAX_LOG_SIZE && n <= MAX_LOG_SIZE - self.written
    }

    /// Records one line.  The line always joins the in-memory trace; it is
    /// returned for appending to the ESP copy exactly when the log is in
    /// write-through mode and the line fits under the cap.
    pub fn log(&mut self, timestamp: &str, level: &str, message: &str) -> (append: Option<String>)
        ensures
            final(self)@.buffer == old(self)@.buffer + line_text(timestamp@, level@, message@),
            final(self)@.write_through == old(self)@.write_through,
            final(self)@.written == old(self)@.written,
            append is Some <==> old(self)@.write_through && fits(
                old(self)@.written,
                utf8_len(line_text(timestamp@, level@, message@)),
            ),
            append is Some ==> append.unwrap()@ == line_text(timestamp@, level@, message@),
    {
        let line = format_line(timestamp, level, message);
        let out = if self.write_through && self.fits_exec(line.as_str()) {
            Some(line.clone())
        } else {
            None
        };
        self.buffer.append(line.as_str());
        proof {
            if out.is_some() {
                assert(out.unwrap()@ == line@);
            }
        }
        out
    }

    /// `log` at level `INFO`.
    pub fn info(&mut self, timestamp: &str, message: &str) -> (append: Option<String>)
        ensures
            final(self)@.buffer == old(self)@.buffer + line_text(timestamp@, "INFO"@, message@),
            final(self)@.write_through == old(self)@.write_through,
            final(self)@.written == old(self)@.written,
            append is Some <==> old(self)@.write_through && fits(
                old(self)@.written,
                utf8_len(line_text(timestamp@, "INFO"@, message@)),
            ),
            append is Some ==> append.unwrap()@ == line_text(timestamp@, "INFO"@, message@),
    {
        self.log(timestamp, "INFO", message)
    }

    /// `log` at level `WARN`.
    pub fn warn(&mut self, timestamp: &str, message: &str) -> (append: Option<String>)
        ensures
            final(self)@.buffer == old(self)@.buffer + line_text(timestamp@, "WARN"@, message@),
            final(self)@.write_through == old(self)@.write_through,
            final(self)@.written == old(self)@.written,
            append is Some <==> old(self)@.write_through && fits(
                old(self)@.written,
                utf8_len(line_text(timestamp@, "WARN"@, message@)),
            ),
            append is Some ==> append.unwrap()@ == line_text(timestamp@, "WARN"@, message@),
    {
        self.log(timestamp, "WARN", message)
    }

    /// Accounts for a line that was appended to the ESP copy.  A line that
    /// would overrun the cap is never handed out by `log`, so it is not
    /// counted either.
    pub fn record_appended(&mut self, line: &str)
        ensures
            final(self)@.buffer == old(self)@.buffer,
            final(self)@.write_through == old(self)@.write_through,
            final(self)@.written == (if fits(old(self)@.written, utf8_len(line@)) {
                old(self)@.written + utf8_len(line@)
            } else {
                old(self)@.written
            }),
    {
        if self.fits_exec(line) {
            self.written = self.written + line.as_bytes().len();
        }
    }

    /// Leaves write-through mode: lines only accumulate from now on.
    pub fn set_buffered(&mut self)
        ensures
            final(self)@.buffer == old(self)@.buffer,
            !final(self)@.write_through,
            final(self)@.written == old(self)@.written,
    {
        self.write_through = false;
    }

    /// Opens the trace of a boot: the buffer restarts with the header, the
    /// ESP accounting restarts at zero, and the header is returned for
    /// writing as the new ESP file.
    pub fn start(&mut self, version: &str, arch: &str, timestamp: &str) -> (header: String)
        ensures
            header@ == header_text(version@, arch@, timestamp@),
            final(self)@.buffer == header@,
            final(self)@.write_through == old(self)@.write_through,
            final(self)@.written == 0,
    {
        let header = format_header(version, arch, timestamp);
        self.buffer = header.clone();
        self.written = 0;
        header
    }

    /// Accounts for the header having been written as the new ESP file.
    pub fn record_started(&mut self, header: &str)
        ensures
            final(self)@.buffer == old(self)@.buffer,
            final(self)@.write_through == old(self)@.write_through,
            final(self)@.written == utf8_len(header@),
    {
        self.written = header.as_bytes().len();
    }

    /// What a flush writes to the ESP: the whole buffer, or nothing when it
    /// is empty.
    pub fn flush_contents(&self) -> (r: Option<&str>)
        ensures
            r is Some <==> self@.buffer.len() > 0,
            r is Some ==> r.unwrap()@ == self@.buffer,
    {
        let s = self.buffer.as_str();
        if s.is_empty() {
            None
        } else {
            Some(s)
        }
    }
}

/// Recording an appended line never takes the ESP accounting over the cap:
/// a trace whose accounting is within the cap stays within it, whatever
/// line is recorded.
pub proof fn record_appended_keeps_cap(before: BootLogView, after: BootLogView, line: Seq<char>)
    requires
        before.written <= MAX_LOG_SIZE,
        after.written == (if fits(before.written, utf8_len(line)) {
            before.written + utf8_len(line)
        } else {
            before.written
        }),
    ensures
        after.written <= MAX_LOG_SIZE,
{
}

} // verus!
