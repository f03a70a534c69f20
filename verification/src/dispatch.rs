//! The command dispatcher: accumulates control-channel bytes into
//! newline-delimited lines and applies each complete, well-formed line
//! against the configuration store, one command at a time.
//!
//! A line whose bytes (after the trailing newline is stripped) are not valid
//! UTF-8 is left in the buffer unconsumed, newline included, exactly as the
//! byte-wise accumulation found it; a line that is valid UTF-8 but outside
//! the command grammar is discarded and reported, and processing continues.

use vstd::prelude::*;

use vstd::utf8::valid_utf8;

use crate::command::{run_command_str, spec_command_of_line};
use crate::config::{spec_encode_config, wifi_config_key};
use crate::store::ConfigStore;

verus! {

/// What handing one byte to the dispatcher did.
#[derive(Debug, PartialEq, Eq, Structural)]
pub enum LineOutcome {
    /// No complete line yet (or an undecodable one still accumulating).
    Pending,
    /// A complete line decoded to a command, which was applied.
    Applied,
    /// A complete line did not decode to a command and was discarded.
    Rejected,
}

/// How one incoming byte advances the line buffer and the store: bytes
/// accumulate until a newline; at a newline the line body (newline
/// stripped) must be valid UTF-8, or the buffer is left as it stands; a
/// well-formed command line replaces the stored Wi-Fi credentials, any
/// other line is dropped.
pub open spec fn dispatch_step(buf: Seq<u8>, b: u8, store: Map<Seq<char>, Seq<u8>>) -> (
    Seq<u8>,
    Map<Seq<char>, Seq<u8>>,
) {
    if b != 0x0a {
        (buf.push(b), store)
    } else if !valid_utf8(buf) {
        (buf.push(b), store)
    } else {
        match spec_command_of_line(buf) {
            Some(c) => (
                Seq::empty(),
                store.insert(wifi_config_key(), spec_encode_config(c.0, c.1)),
            ),
            None => (Seq::empty(), store),
        }
    }
}

/// `dispatch_step` folded over a chunk of bytes, front to back.
pub open spec fn dispatch_fold(
    buf: Seq<u8>,
    bytes: Seq<u8>,
    store: Map<Seq<char>, Seq<u8>>,
) -> (Seq<u8>, Map<Seq<char>, Seq<u8>>)
    decreases bytes.len(),
{
    if bytes.len() == 0 {
        (buf, store)
    } else {
        let s = dispatch_step(buf, bytes[0], store);
        dispatch_fold(s.0, bytes.skip(1), s.1)
    }
}

/// The line-buffering state of the control channel.
pub struct CommandDispatcher {
    line_buf: Vec<u8>,
}

impl CommandDispatcher {
    /// The bytes of the line being accumulated.
    pub closed spec fn buffered(&self) -> Seq<u8> {
        self.line_buf@
    }

    pub fn new() -> (r: Self)
        ensures
            r.buffered() == Seq::<u8>::empty(),
    {
        CommandDispatcher { line_buf: Vec::new() }
    }

    /// Feed one byte from the control channel; on a newline the buffered
    /// line is completed and handled as `dispatch_step` says.
    pub fn push_byte(&mut self, b: u8, storage: &mut ConfigStore) -> (r: LineOutcome)
        requires
            old(storage).wf(),
        ensures
            final(storage).wf(),
            (final(self).buffered(), final(storage)@) == dispatch_step(
                old(self).buffered(),
                b,
                old(storage)@,
            ),
            r is Applied <==> b == 0x0a && valid_utf8(old(self).buffered())
                && spec_command_of_line(old(self).buffered()) is Some,
            r is Rejected <==> b == 0x0a && valid_utf8(old(self).buffered())
                && spec_command_of_line(old(self).buffered()) is None,
    {
        if b != 0x0a {
            self.line_buf.push(b);
            return LineOutcome::Pending;
        }
        let line_str = match crate::text::bytes_as_str(self.line_buf.as_slice()) {
            Some(s) => s,
            None => {
                self.line_buf.push(b);
                return LineOutcome::Pending;
            },
        };
        let outcome = match run_command_str(storage, line_str) {
            Ok(_) => LineOutcome::Applied,
            Err(_) => LineOutcome::Rejected,
        };
        self.line_buf = Vec::new();
        outcome
    }

    /// Feed a whole chunk, front to back, applying each completed line in
    /// turn before the buffer admits the next.
    #[verifier::loop_isolation(false)]
    pub fn process_chunk(&mut self, chunk: &[u8], storage: &mut ConfigStore)
        requires
            old(storage).wf(),
        ensures
            final(storage).wf(),
            (final(self).buffered(), final(storage)@) == dispatch_fold(
                old(self).buffered(),
                chunk@,
                old(storage)@,
            ),
    {
        let mut i: usize = 0;
        proof {
            assert(chunk@.skip(0) =~= chunk@);
        }
        while i < chunk.len()
            invariant
                i <= chunk@.len(),
                storage.wf(),
                dispatch_fold(old(self).buffered(), chunk@, old(storage)@) == dispatch_fold(
                    self.buffered(),
                    chunk@.skip(i as int),
                    storage@,
                ),
            decreases chunk@.len() - i,
        {
            let ghost pre = chunk@.skip(i as int);
            self.push_byte(chunk[i], storage);
            i = i + 1;
            proof {
                assert(pre[0] == chunk@[i - 1]);
                assert(pre.skip(1) =~= chunk@.skip(i as int));
            }
        }
        proof {
            assert(chunk@.skip(i as int) =~= Seq::<u8>::empty());
        }
    }
}

} // verus!
