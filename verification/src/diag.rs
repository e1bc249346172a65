//! Gated diagnostic breadcrumbs for the post-selection boot path.
//!
//! Breadcrumbs are dropped only while diagnostics are enabled.  Normally
//! each one is written to the audit log at once; in coalescing mode (on
//! firmware where a console write can stall the next FAT operation) they
//! collect in a bounded in-memory buffer instead, and the whole buffer is
//! written once at each pre-handoff flush.  The writes themselves belong to
//! the caller; this module decides what is written and when.
use vstd::prelude::*;

use crate::text::{lemma_encode_utf8_concat, utf8_len};

verus! {

/// Cap, in bytes, on the coalescing buffer.  Once a breadcrumb no longer
/// fits it is dropped: the earliest trail shows how far the boot reached.
pub const DIAG_BUF_CAP: usize = 32768;

/// Diagnostic switches and the coalescing buffer.
pub struct Diag {
    enabled: bool,
    coalesce: bool,
    buffer: String,
}

pub struct DiagView {
    pub enabled: bool,
    pub coalesce: bool,
    pub buffer: Seq<char>,
}

impl View for Diag {
    type V = DiagView;

    closed spec fn view(&self) -> DiagView {
        DiagView { enabled: self.enabled, coalesce: self.coalesce, buffer: self.buffer@ }
    }
}

impl DiagView {
    /// The buffer never holds more than `DIAG_BUF_CAP` bytes.
    pub open spec fn wf(self) -> bool {
        utf8_len(self.buffer) <= DIAG_BUF_CAP
    }
}

impl Diag {
    /// Diagnostics off, no coalescing, empty buffer.
    pub fn new() -> (r: Self)
        ensures
            !r@.enabled,
            !r@.coalesce,
            r@.buffer == Seq::<char>::empty(),
            r@.wf(),
    {
        Diag { enabled: false, coalesce: false, buffer: String::new() }
    }

    /// Turns breadcrumbs on or off (the policy's verbose-diagnostics switch).
    pub fn set_enabled(&mut self, v: bool)
        ensures
            final(self)@ == (DiagView { enabled: v, ..old(self)@ }),
    {
        self.enabled = v;
    }

    /// Turns coalescing on or off (the console/FAT coupling quirk).
    pub fn set_coalesce(&mut self, v: bool)
        ensures
            final(self)@ == (DiagView { coalesce: v, ..old(self)@ }),
    {
        self.coalesce = v;
    }

    /// Drops one breadcrumb.  Returns whether the caller writes it to the
    /// audit log now: exactly when diagnostics are on and not coalescing.
    /// When coalescing, the breadcrumb joins the buffer if it fits under the
    /// cap and is dropped otherwise.
    pub fn append(&mut self, msg: &str) -> (write_now: bool)
        requires
            old(self)@.wf(),
        ensures
            write_now == (old(self)@.enabled && !old(self)@.coalesce),
            final(self)@.enabled == old(self)@.enabled,
            final(self)@.coalesce == old(self)@.coalesce,
            final(self)@.buffer == (if old(self)@.enabled && old(self)@.coalesce && utf8_len(
                old(self)@.buffer,
            ) + utf8_len(msg@) <= DIAG_BUF_CAP {
                old(self)@.buffer + msg@
            } else {
                old(self)@.buffer
            }),
            final(self)@.wf(),
    {
        if !self.enabled {
            return false;
        }
        if self.coalesce {
            let have = self.buffer.as_str().as_bytes().len();
            let add = msg.as_bytes().len();
            if add <= DIAG_BUF_CAP - have {
                proof {
                    lemma_encode_utf8_concat(self.buffer@, msg@);
                }
                self.buffer.append(msg);
            }
            false
        } else {
            true
        }
    }

    /// At a pre-handoff checkpoint: when coalescing and the buffer is not
    /// empty, hands out the whole buffer for one write and empties it;
    /// otherwise there is nothing to write.
    pub fn flush(&mut self) -> (out: Option<String>)
        requires
            old(self)@.wf(),
        ensures
            out is Some <==> old(self)@.coalesce && old(self)@.buffer.len() > 0,
            out is Some ==> out.unwrap()@ == old(self)@.buffer,
            final(self)@.enabled == old(self)@.enabled,
            final(self)@.coalesce == old(self)@.coalesce,
            final(self)@.buffer == (if out is Some {
                Seq::<char>::empty()
            } else {
                old(self)@.buffer
            }),
            final(self)@.wf(),
    {
        if !self.coalesce || self.buffer.as_str().is_empty() {
            return None;
        }
        let mut out = String::new();
        core::mem::swap(&mut out, &mut self.buffer);
        Some(out)
    }
}

} // verus!
