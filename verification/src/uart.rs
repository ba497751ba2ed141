//! Commands that arrive over the serial line, staged until they are complete.
use crate::global::{COMMAND_BUF_LEN, Global};
use crate::text::{decimal, push_number};
use vstd::prelude::*;
use vstd::utf8::*;

verus! {

broadcast use vstd::string::group_string_axioms;

/// The error of `core::str::from_utf8`.
#[verifier::external_type_specification]
#[verifier::external_body]
pub struct ExUtf8Error(core::str::Utf8Error);

/// What `core::str::from_utf8` finds wrong with bytes that are not valid.
pub uninterp spec fn utf8_error(v: Seq<u8>) -> core::str::Utf8Error;

/// `core::str::from_utf8`: the text that the bytes encode, `Err` exactly where
/// they are not valid UTF-8. Of the error it is claimed that the bytes alone
/// decide it.
pub assume_specification[ core::str::from_utf8 ](v: &[u8]) -> (r: Result<
    &str,
    core::str::Utf8Error,
>)
    ensures
        r is Ok <==> valid_utf8(v@),
        r matches Ok(s) ==> s@ == decode_utf8(v@),
        r matches Err(e) ==> e == utf8_error(v@),
;

/// The answer to a command whose response could not be sent.
pub const RESPONSE_FAILED: &'static str = "uart.1\r\n";

/// The answer to a command that is too long.
pub const OVERFLOW: &'static str = "uart.2\r\n";

/// The bytes that have been received and not consumed.
pub open spec fn pending(g: Global) -> Seq<u8> {
    g.command_buf@.take(g.command_buf_pos as int)
}

/// Whether nothing but the staging buffer differs.
pub open spec fn same_but_staging(a: Global, b: Global) -> bool {
    a == (Global {
        command_buf: a.command_buf,
        command_buf_pos: a.command_buf_pos,
        ..b
    })
}

/// The serial line's own state.
#[derive(Clone, Copy, Debug)]
pub struct UartTask {
    /// Whether logging has been switched off, for good, because a client talks
    /// on the line that log output would disturb.
    pub logging_disabled: bool,
}

impl UartTask {
    pub fn new() -> (r: Self)
        ensures
            !r.logging_disabled,
    {
        UartTask { logging_disabled: false }
    }

    /// Takes `n` bytes that were read behind the pending ones. Returns whether
    /// logging is to be switched off now, which the first byte does.
    pub fn received(&mut self, g: &mut Global, n: usize) -> (r: bool)
        requires
            old(g).command_buf_pos + n <= COMMAND_BUF_LEN,
        ensures
            r == (n > 0 && !old(self).logging_disabled),
            final(self).logging_disabled == (old(self).logging_disabled || n > 0),
            *final(g) == (Global {
                command_buf_pos: (old(g).command_buf_pos + n) as usize,
                ..*old(g)
            }),
            pending(*final(g)) == pending(*old(g)) + old(g).command_buf@.subrange(
                old(g).command_buf_pos as int,
                old(g).command_buf_pos + n,
            ),
    {
        let first: bool = n > 0 && !self.logging_disabled;
        if first {
            self.logging_disabled = true;
        }
        g.command_buf_pos = g.command_buf_pos + n;
        proof {
            assert(pending(*g) =~= pending(*old(g)) + old(g).command_buf@.subrange(
                old(g).command_buf_pos as int,
                old(g).command_buf_pos + n,
            ));
        }
        first
    }
}

/// Takes the outcome of handing the pending bytes to the command processor:
/// how many of them it consumed, or that its response could not be sent.
/// What was not consumed moves to the front. Returns what to answer.
pub fn processed(g: &mut Global, outcome: Result<usize, ()>) -> (r: Option<&'static str>)
    requires
        old(g).command_buf_pos <= COMMAND_BUF_LEN,
        outcome matches Ok(n) ==> n <= old(g).command_buf_pos,
    ensures
        match outcome {
            Ok(n) => {
                &&& r is None
                &&& final(g).command_buf_pos == old(g).command_buf_pos - n
                &&& pending(*old(g)) == pending(*old(g)).take(n as int) + pending(*final(g))
                &&& same_but_staging(*final(g), *old(g))
            },
            Err(_) => {
                &&& r matches Some(m) && m@ == RESPONSE_FAILED@
                &&& *final(g) == *old(g)
            },
        },
{
    match outcome {
        Ok(n) => {
            let rest: usize = g.command_buf_pos - n;
            let ghost before = g.command_buf@;
            for i in 0..rest
                invariant
                    before.len() == COMMAND_BUF_LEN,
                    before == old(g).command_buf@,
                    g.command_buf@.len() == COMMAND_BUF_LEN,
                    g.command_buf_pos == old(g).command_buf_pos,
                    rest + n == g.command_buf_pos,
                    g.command_buf_pos <= COMMAND_BUF_LEN,
                    same_but_staging(*g, *old(g)),
                    forall|j: int| 0 <= j < i ==> g.command_buf@[j] == before[j + n],
                    forall|j: int| i <= j < COMMAND_BUF_LEN ==> g.command_buf@[j] == before[j],
            {
                let b: u8 = g.command_buf[n + i];
                g.command_buf[i] = b;
            }
            g.command_buf_pos = rest;
            proof {
                assert(pending(*old(g)) =~= pending(*old(g)).take(n as int) + pending(*g));
            }
            None
        },
        Err(_) => Some(RESPONSE_FAILED),
    }
}

/// Forgets what is pending, after a read that failed.
pub fn read_failed(g: &mut Global)
    ensures
        *final(g) == (Global { command_buf_pos: 0, ..*old(g) }),
{
    g.command_buf_pos = 0;
}

/// Forgets what is pending where it fills the buffer, since no command can be
/// completed then. Returns what to answer.
pub fn check_overflow(g: &mut Global) -> (r: Option<&'static str>)
    ensures
        if old(g).command_buf_pos >= COMMAND_BUF_LEN {
            &&& *final(g) == (Global { command_buf_pos: 0, ..*old(g) })
            &&& r matches Some(m) && m@ == OVERFLOW@
        } else {
            &&& *final(g) == *old(g)
            &&& r is None
        },
        final(g).command_buf_pos < COMMAND_BUF_LEN,
        r is Some <==> old(g).command_buf_pos >= 1024,
{
    if g.command_buf_pos >= COMMAND_BUF_LEN {
        g.command_buf_pos = 0;
        Some(OVERFLOW)
    } else {
        None
    }
}

/// The line that records received bytes: as text where they are.
pub open spec fn recv_line(data: Seq<u8>) -> Seq<char> {
    if valid_utf8(data) {
        "UART recv text: "@ + decode_utf8(data)
    } else {
        "UART recv binary ("@ + decimal(data.len()) + " bytes)"@
    }
}

/// The line that records received bytes.
pub fn log_uart_recv(data: &[u8]) -> (r: String)
    ensures
        r@ == recv_line(data@),
{
    let mut out: String = String::new();
    match core::str::from_utf8(data) {
        Ok(text) => {
            out.append("UART recv text: ");
            out.append(text);
        },
        Err(_) => {
            out.append("UART recv binary (");
            push_number(&mut out, data.len() as u64);
            out.append(" bytes)");
        },
    }
    proof {
        assert(out@ =~= recv_line(data@));
    }
    out
}

// ---------------------------------------------------------------------------
// Laws
// ---------------------------------------------------------------------------

/// What is pending are the first bytes of the buffer, as many as were received
/// and not consumed.
pub proof fn lemma_pending_is_front(g: Global, i: int)
    requires
        g.command_buf_pos <= 1024,
        0 <= i < g.command_buf_pos,
    ensures
        pending(g).len() == g.command_buf_pos,
        pending(g)[i] == g.command_buf@[i],
{
}

/// Received text is recorded as it is, anything else by how many bytes it is.
pub proof fn lemma_recv_line_shows(data: Seq<u8>)
    ensures
        valid_utf8(data) ==> recv_line(data).take(16) == "UART recv text: "@ && recv_line(
            data,
        ).skip(16) == decode_utf8(data),
        !valid_utf8(data) ==> recv_line(data) == "UART recv binary ("@ + (decimal(data.len())
            + " bytes)"@),
{
    reveal_strlit("UART recv text: ");
    if valid_utf8(data) {
        assert(recv_line(data).take(16) =~= "UART recv text: "@);
        assert(recv_line(data).skip(16) =~= decode_utf8(data));
    } else {
        assert(recv_line(data) =~= "UART recv binary ("@ + (decimal(data.len()) + " bytes)"@));
    }
}

} // verus!
