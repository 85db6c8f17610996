//! The client side of one request: interpreting the server's response to a
//! `PASTE`. The request itself is a single call of
//! [`Connection::send_command`]; a "copy" request is a single call of
//! [`Connection::send_clipboard`].

use vstd::prelude::*;
use vstd::utf8::{decode_utf8, valid_utf8};
use crate::codec::{spec_read_image, spec_read_line, spec_read_string, str_eq, Connection,
    ProtocolError};
use crate::content::{Content, ImageV};

verus! {

/// A failed client request.
#[derive(Debug)]
pub enum ClientError {
    /// The response violated the framing rules.
    Protocol(ProtocolError),
    /// The response was a well-formed line, but not one a `PASTE` may be
    /// answered with; the token is carried for reporting.
    UnexpectedResponse(String),
}

/// Read the server's one response to a `PASTE` request: `COPY TEXT` or
/// `COPY IMAGE` with its payload. Any other token — `COPY NONE` and
/// `ERROR` included — aborts the request as unexpected. On any failure the
/// connection's state is left exactly as it was.
pub fn read_paste_response(conn: &mut Connection) -> (r: Result<Content, ClientError>)
    requires
        old(conn).wf(),
    ensures
        final(conn).wf(),
        final(conn).input@ == old(conn).input@,
        final(conn).sent() == old(conn).sent(),
        match r {
            Ok(c) => c.wf() && exists|line: Seq<u8>, rem1: Seq<u8>|
                #![auto]
                spec_read_line(old(conn).remaining()) == Ok::<_, ProtocolError>((line, rem1))
                    && valid_utf8(line) && {
                    ||| decode_utf8(line) == "COPY TEXT"@ && (c matches Content::Text(t)
                        && spec_read_string(rem1) == Ok::<_, ProtocolError>(
                        (t@, final(conn).remaining()),
                    ))
                    ||| decode_utf8(line) == "COPY IMAGE"@ && (c matches Content::Image(img)
                        && spec_read_image(rem1) == Ok::<_, ProtocolError>(
                        (img@, final(conn).remaining()),
                    ))
                },
            Err(e) => final(conn).pos == old(conn).pos && match e {
                ClientError::UnexpectedResponse(s) => exists|line: Seq<u8>, rem1: Seq<u8>|
                    #![auto]
                    spec_read_line(old(conn).remaining()) == Ok::<_, ProtocolError>((line, rem1))
                        && valid_utf8(line) && s@ == decode_utf8(line) && s@ != "COPY TEXT"@ && s@
                        != "COPY IMAGE"@,
                ClientError::Protocol(pe) => match spec_read_line(old(conn).remaining()) {
                    Err(e2) => pe == e2,
                    Ok((line, rem1)) => if !valid_utf8(line) {
                        pe == ProtocolError::InvalidEncoding
                    } else {
                        ||| decode_utf8(line) == "COPY TEXT"@ && spec_read_string(rem1) == Err::<
                            (Seq<char>, Seq<u8>),
                            _,
                        >(pe)
                        ||| decode_utf8(line) == "COPY IMAGE"@ && spec_read_image(rem1) == Err::<
                            (ImageV, Seq<u8>),
                            _,
                        >(pe)
                    },
                },
            },
        },
{
    let start = conn.pos;
    let response = match conn.read_command() {
        Ok(c) => c,
        Err(e) => {
            return Err(ClientError::Protocol(e));
        },
    };
    if str_eq(response.as_str(), "COPY TEXT") {
        match conn.read_string() {
            Ok(t) => Ok(Content::Text(t)),
            Err(e) => {
                conn.pos = start;
                Err(ClientError::Protocol(e))
            },
        }
    } else if str_eq(response.as_str(), "COPY IMAGE") {
        match conn.read_image() {
            Ok(img) => Ok(Content::Image(img)),
            Err(e) => {
                conn.pos = start;
                Err(ClientError::Protocol(e))
            },
        }
    } else {
        conn.pos = start;
        Err(ClientError::UnexpectedResponse(response))
    }
}

} // verus!
