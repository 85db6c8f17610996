//! The command dispatcher and the per-connection server state machine.
//!
//! A connection is a persistent session: commands are dispatched one after
//! another until the peer closes cleanly between commands or a protocol
//! error makes the stream unrecoverable. Clipboard failures are reported
//! to the peer and keep the connection open; framing failures close it.

use vstd::prelude::*;
use vstd::utf8::{decode_utf8, valid_utf8};
use crate::codec::{
    clipboard_frame,
    error_frame,
    opt_content_view_ref,
    spec_read_image,
    spec_read_line,
    spec_read_string,
    str_eq,
    Connection,
    ProtocolError,
};
use crate::content::{Content, ContentV, ImageV, opt_content_wf};
use crate::clipboard::ClipboardService;

verus! {

/// What one dispatched command does, as the peer observes it: `rem0`/`sent0`
/// are the connection's unconsumed input and pending output before the
/// command, `rem1`/`sent1` after it, and `clip0`/`clip1` the clipboard
/// service around it.
///
/// `PASTE` answers with the clipboard's content; the three `COPY` forms
/// write, after reading any payload, and answer nothing; an unknown token
/// is ignored and the connection stays as it was. On the in-memory backend
/// the clipboard's new value is pinned exactly; on the system backend the
/// host decides, and a failure is answered with an `ERROR` frame.
pub open spec fn dispatch_ok(
    cmd: Seq<char>,
    rem0: Seq<u8>,
    sent0: Seq<u8>,
    clip0: ClipboardService,
    rem1: Seq<u8>,
    sent1: Seq<u8>,
    clip1: ClipboardService,
) -> bool {
    if cmd == "PASTE"@ {
        &&& rem1 == rem0
        &&& if clip0.is_memory() {
            clip1 == clip0 && sent1 == sent0 + clipboard_frame(clip0.mem_content())
        } else {
            ||| exists|c: Option<ContentV>|
                #![auto]
                opt_content_wf(c) && sent1 == sent0 + clipboard_frame(c)
            ||| sent1 == sent0 + error_frame("Failed to open clipboard"@)
        }
    } else if cmd == "COPY TEXT"@ {
        exists|t: Seq<char>|
            #![auto]
            spec_read_string(rem0) == Ok::<_, ProtocolError>((t, rem1)) && if clip0.is_memory() {
                clip1.is_memory() && clip1.mem_content() == Some(ContentV::Text(t)) && sent1
                    == sent0
            } else {
                !clip1.is_memory() && (sent1 == sent0 || sent1 == sent0 + error_frame(
                    "Failed to open clipboard"@,
                ) || sent1 == sent0 + error_frame("Failed to set text"@))
            }
    } else if cmd == "COPY IMAGE"@ {
        exists|iv: ImageV|
            #![auto]
            spec_read_image(rem0) == Ok::<_, ProtocolError>((iv, rem1)) && iv.wf() && if clip0
                .is_memory() {
                clip1.is_memory() && clip1.mem_content() == Some(ContentV::Image(iv)) && sent1
                    == sent0
            } else {
                !clip1.is_memory() && (sent1 == sent0 || sent1 == sent0 + error_frame(
                    "Failed to open clipboard"@,
                ) || sent1 == sent0 + error_frame("Failed to set image"@))
            }
    } else if cmd == "COPY NONE"@ {
        &&& rem1 == rem0
        &&& if clip0.is_memory() {
            clip1.is_memory() && clip1.mem_content() == None::<ContentV> && sent1 == sent0
        } else {
            !clip1.is_memory() && (sent1 == sent0 || sent1 == sent0 + error_frame(
                "Failed to open clipboard"@,
            ) || sent1 == sent0 + error_frame("Failed to clear clipboard"@))
        }
    } else {
        rem1 == rem0 && sent1 == sent0 && clip1 == clip0
    }
}

/// Dispatch one decoded command against the clipboard service.
///
/// A clipboard failure is answered with an `ERROR` frame and succeeds here:
/// the connection survives it. A framing error while reading the command's
/// payload is returned, leaving the connection's state exactly as it was.
pub fn handle_command(command: &str, conn: &mut Connection, clip: &mut ClipboardService) -> (r:
    Result<(), ProtocolError>)
    requires
        old(conn).wf(),
        old(clip).wf(),
    ensures
        final(conn).wf(),
        final(clip).wf(),
        final(conn).input@ == old(conn).input@,
        final(clip).is_memory() == old(clip).is_memory(),
        match r {
            Ok(_) => dispatch_ok(
                command@,
                old(conn).remaining(),
                old(conn).sent(),
                *old(clip),
                final(conn).remaining(),
                final(conn).sent(),
                *final(clip),
            ),
            Err(e) => {
                &&& final(conn).pos == old(conn).pos
                &&& final(conn).sent() == old(conn).sent()
                &&& *final(clip) == *old(clip)
                &&& {
                    ||| command@ == "COPY TEXT"@ && spec_read_string(old(conn).remaining())
                        == Err::<(Seq<char>, Seq<u8>), _>(e)
                    ||| command@ == "COPY IMAGE"@ && spec_read_image(old(conn).remaining())
                        == Err::<(ImageV, Seq<u8>), _>(e)
                }
            },
        },
{
    if str_eq(command, "PASTE") {
        match clip.get() {
            Ok(content) => {
                conn.send_clipboard(&content);
                proof {
                    let c = opt_content_view_ref(&content);
                    assert(opt_content_wf(c) && conn.sent() == old(conn).sent()
                        + clipboard_frame(c));
                }
            },
            Err(e) => {
                let msg = e.message();
                conn.send_error(msg.as_str());
            },
        }
        Ok(())
    } else if str_eq(command, "COPY TEXT") {
        let text = match conn.read_string() {
            Ok(t) => t,
            Err(e) => {
                return Err(e);
            },
        };
        let ghost tv = text@;
        let ghost rem1 = conn.remaining();
        match clip.set(Content::Text(text)) {
            Ok(_) => {},
            Err(e) => {
                let msg = e.message();
                conn.send_error(msg.as_str());
                proof {
                    assert(conn.sent() == old(conn).sent() + error_frame(msg@));
                }
            },
        }
        proof {
            assert(spec_read_string(old(conn).remaining()) == Ok::<_, ProtocolError>((tv, rem1)));
            if old(clip).is_memory() {
                assert(clip.mem_content() == Some(ContentV::Text(tv)));
            }
        }
        Ok(())
    } else if str_eq(command, "COPY IMAGE") {
        let image = match conn.read_image() {
            Ok(img) => img,
            Err(e) => {
                return Err(e);
            },
        };
        let ghost iv = image@;
        let ghost rem1 = conn.remaining();
        match clip.set(Content::Image(image)) {
            Ok(_) => {},
            Err(e) => {
                let msg = e.message();
                conn.send_error(msg.as_str());
                proof {
                    assert(conn.sent() == old(conn).sent() + error_frame(msg@));
                }
            },
        }
        proof {
            assert(spec_read_image(old(conn).remaining()) == Ok::<_, ProtocolError>((iv, rem1)));
            if old(clip).is_memory() {
                assert(clip.mem_content() == Some(ContentV::Image(iv)));
            }
        }
        Ok(())
    } else if str_eq(command, "COPY NONE") {
        match clip.clear() {
            Ok(_) => {},
            Err(e) => {
                let msg = e.message();
                conn.send_error(msg.as_str());
            },
        }
        Ok(())
    } else {
        Ok(())
    }
}

/// The outcome of one step of the server loop.
#[derive(Clone, Copy, Debug, PartialEq, Eq)]
pub enum StepResult {
    /// One command was consumed and dispatched.
    Handled,
    /// The buffer holds no complete command; feed more bytes, or step again
    /// with `input_closed` once the peer has shut its side down.
    NeedInput,
    /// The peer closed cleanly between commands: normal termination.
    Closed,
}

/// One step of the per-connection server loop: read the leading command
/// line and dispatch it.
///
/// `input_closed` says the transport will deliver no more bytes. While it
/// is false an incomplete command is answered with `NeedInput` and nothing
/// is consumed; once it is true, an empty buffer is a clean close and a
/// partial command is a fatal `UnexpectedEof`. Any returned error leaves
/// the connection's state exactly as it was.
pub fn server_step(conn: &mut Connection, clip: &mut ClipboardService, input_closed: bool) -> (r:
    Result<StepResult, ProtocolError>)
    requires
        old(conn).wf(),
        old(clip).wf(),
    ensures
        final(conn).wf(),
        final(clip).wf(),
        final(conn).input@ == old(conn).input@,
        final(clip).is_memory() == old(clip).is_memory(),
        match r {
            Ok(StepResult::NeedInput) => {
                &&& !input_closed
                &&& final(conn).pos == old(conn).pos
                &&& final(conn).sent() == old(conn).sent()
                &&& *final(clip) == *old(clip)
                &&& match spec_read_line(old(conn).remaining()) {
                    Err(e) => e == ProtocolError::UnexpectedEof,
                    Ok((line, rem1)) => valid_utf8(line) && {
                        let cmd = decode_utf8(line);
                        ||| cmd == "COPY TEXT"@ && spec_read_string(rem1) == Err::<
                            (Seq<char>, Seq<u8>),
                            _,
                        >(ProtocolError::UnexpectedEof)
                        ||| cmd == "COPY IMAGE"@ && spec_read_image(rem1) == Err::<
                            (ImageV, Seq<u8>),
                            _,
                        >(ProtocolError::UnexpectedEof)
                    },
                }
            },
            Ok(StepResult::Closed) => input_closed && old(conn).remaining().len() == 0
                && final(conn).pos == old(conn).pos && final(conn).sent() == old(conn).sent()
                && *final(clip) == *old(clip),
            Ok(StepResult::Handled) => exists|line: Seq<u8>, rem1: Seq<u8>|
                #![auto]
                spec_read_line(old(conn).remaining()) == Ok::<_, ProtocolError>((line, rem1))
                    && valid_utf8(line) && dispatch_ok(
                    decode_utf8(line),
                    rem1,
                    old(conn).sent(),
                    *old(clip),
                    final(conn).remaining(),
                    final(conn).sent(),
                    *final(clip),
                ),
            Err(e) => {
                &&& final(conn).pos == old(conn).pos
                &&& final(conn).sent() == old(conn).sent()
                &&& *final(clip) == *old(clip)
                &&& match spec_read_line(old(conn).remaining()) {
                    Err(e2) => e == e2 && (e2 != ProtocolError::UnexpectedEof || (input_closed
                        && old(conn).remaining().len() > 0)),
                    Ok((line, rem1)) => if !valid_utf8(line) {
                        e == ProtocolError::InvalidEncoding
                    } else {
                        let cmd = decode_utf8(line);
                        &&& (e != ProtocolError::UnexpectedEof || input_closed)
                        &&& {
                            ||| cmd == "COPY TEXT"@ && spec_read_string(rem1) == Err::<
                                (Seq<char>, Seq<u8>),
                                _,
                            >(e)
                            ||| cmd == "COPY IMAGE"@ && spec_read_image(rem1) == Err::<
                                (ImageV, Seq<u8>),
                                _,
                            >(e)
                        }
                    },
                }
            },
        },
{
    let start = conn.pos;
    let command = match conn.read_command() {
        Ok(c) => c,
        Err(e) => match e {
            ProtocolError::UnexpectedEof => {
                if !input_closed {
                    return Ok(StepResult::NeedInput);
                }
                if conn.pos == conn.input.len() {
                    return Ok(StepResult::Closed);
                }
                return Err(ProtocolError::UnexpectedEof);
            },
            _ => {
                return Err(e);
            },
        },
    };
    match handle_command(command.as_str(), conn, clip) {
        Ok(_) => Ok(StepResult::Handled),
        Err(e) => match e {
            ProtocolError::UnexpectedEof => {
                conn.pos = start;
                if !input_closed {
                    Ok(StepResult::NeedInput)
                } else {
                    Err(e)
                }
            },
            _ => {
                conn.pos = start;
                Err(e)
            },
        },
    }
}

} // verus!
