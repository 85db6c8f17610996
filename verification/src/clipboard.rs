//! The clipboard collaborator: one shared value with `get`, `set` and
//! `clear`. Two backends implement it: the host's system clipboard through
//! arboard, and an in-memory value for configurations and tests without
//! one. The backend is chosen by whoever constructs the service, not by
//! ambient state; the caller is expected to guard the service with a lock
//! so that each operation is atomic across connections.

use vstd::prelude::*;
use vstd::string::StringExecFns;
use crate::content::{Content, ContentV, Image, opt_content_view};

verus! {

/// A failed clipboard operation: recoverable per command, reported to the
/// peer as an `ERROR` response.
#[derive(Clone, Copy, Debug, PartialEq, Eq)]
pub enum ClipboardError {
    OpenFailed,
    SetTextFailed,
    SetImageFailed,
    ClearFailed,
}

impl ClipboardError {
    pub open spec fn message_view(&self) -> Seq<char> {
        match self {
            ClipboardError::OpenFailed => "Failed to open clipboard"@,
            ClipboardError::SetTextFailed => "Failed to set text"@,
            ClipboardError::SetImageFailed => "Failed to set image"@,
            ClipboardError::ClearFailed => "Failed to clear clipboard"@,
        }
    }

    /// The message sent to the peer.
    pub fn message(&self) -> (s: String)
        ensures
            s@ == self.message_view(),
    {
        match self {
            ClipboardError::OpenFailed => String::from_str("Failed to open clipboard"),
            ClipboardError::SetTextFailed => String::from_str("Failed to set text"),
            ClipboardError::SetImageFailed => String::from_str("Failed to set image"),
            ClipboardError::ClearFailed => String::from_str("Failed to clear clipboard"),
        }
    }
}

/// arboard's handle to the host system clipboard; opaque to the verifier.
#[verifier::external_type_specification]
#[verifier::external_body]
pub struct ExClipboard(arboard::Clipboard);

/// Relies on `arboard::Clipboard::new`: opens a handle to the system
/// clipboard, or fails where the environment offers none.
#[verifier::external_body]
fn clipboard_open() -> (r: Option<arboard::Clipboard>) {
    arboard::Clipboard::new().ok()
}

/// Relies on `arboard::Clipboard::get_text`: the clipboard's current
/// content as UTF-8 text, or nothing where it holds none.
#[verifier::external_body]
fn clipboard_get_text(c: &mut arboard::Clipboard) -> (r: Option<String>) {
    c.get_text().ok()
}

/// Relies on `arboard::Clipboard::get_image`: the clipboard's current
/// content as RGBA pixels with their dimensions.
#[verifier::external_body]
fn clipboard_get_image(c: &mut arboard::Clipboard) -> (r: Option<(usize, usize, Vec<u8>)>) {
    match c.get_image() {
        Ok(img) => Some((img.width, img.height, img.bytes.into_owned())),
        Err(_) => None,
    }
}

/// Relies on `arboard::Clipboard::set_text`: stores the text, replacing
/// the previous content.
#[verifier::external_body]
fn clipboard_set_text(c: &mut arboard::Clipboard, text: String) -> (r: bool) {
    c.set_text(text).is_ok()
}

/// Relies on `arboard::Clipboard::set_image`: stores RGBA pixels with the
/// given dimensions, replacing the previous content. The byte count must
/// match the dimensions and the dimensions must fit the encoder's 32-bit
/// fields: arboard's Linux path re-encodes the image and asserts the
/// buffer length that the (truncated) dimensions imply.
#[verifier::external_body]
fn clipboard_set_image(c: &mut arboard::Clipboard, width: usize, height: usize, bytes: Vec<u8>) -> (r:
    bool)
    requires
        bytes@.len() == width * height * 4,
        width <= u32::MAX,
        height <= u32::MAX,
{
    let data = arboard::ImageData { width, height, bytes: std::borrow::Cow::Owned(bytes) };
    c.set_image(data).is_ok()
}

/// Relies on `arboard::Clipboard::clear`: empties the clipboard.
#[verifier::external_body]
fn clipboard_clear(c: &mut arboard::Clipboard) -> (r: bool) {
    c.clear().is_ok()
}

/// The system clipboard backend: a lazily opened arboard handle.
pub struct SystemClipboard {
    pub handle: Option<arboard::Clipboard>,
}

impl SystemClipboard {
    /// Open the handle if it is not open yet.
    fn ensure_open(&mut self) -> (r: bool)
        ensures
            r ==> final(self).handle is Some,
    {
        match &self.handle {
            Some(_) => true,
            None => match clipboard_open() {
                Some(h) => {
                    self.handle = Some(h);
                    true
                },
                None => false,
            },
        }
    }
}

/// The in-memory clipboard backend: holds one value of its own.
pub struct MemClipboard {
    pub content: Option<Content>,
}

/// The clipboard service handed to every connection handler.
pub enum ClipboardService {
    System(SystemClipboard),
    Memory(MemClipboard),
}

impl ClipboardService {
    /// Whatever the in-memory backend holds is well formed.
    pub open spec fn wf(&self) -> bool {
        match self {
            ClipboardService::Memory(m) => match m.content {
                Some(c) => c.wf(),
                None => true,
            },
            ClipboardService::System(_) => true,
        }
    }

    pub open spec fn is_memory(&self) -> bool {
        self is Memory
    }

    /// The in-memory backend's value.
    pub open spec fn mem_content(&self) -> Option<ContentV>
        recommends
            self.is_memory(),
    {
        match self {
            ClipboardService::Memory(m) => opt_content_view(m.content),
            ClipboardService::System(_) => None,
        }
    }

    /// An in-memory clipboard, starting empty.
    pub fn new_memory() -> (c: ClipboardService)
        ensures
            c.wf(),
            c.is_memory(),
            c.mem_content() == None::<ContentV>,
    {
        ClipboardService::Memory(MemClipboard { content: None })
    }

    /// The host's system clipboard, opened on first use.
    pub fn new_system() -> (c: ClipboardService)
        ensures
            c.wf(),
            !c.is_memory(),
    {
        ClipboardService::System(SystemClipboard { handle: None })
    }

    /// The current content, or `None` where the clipboard holds none.
    ///
    /// On the system backend the result is whatever the host clipboard
    /// holds at this moment; only well-formedness is promised of it, and a
    /// pixel buffer that does not match its advertised dimensions is
    /// treated as no content.
    pub fn get(&mut self) -> (r: Result<Option<Content>, ClipboardError>)
        requires
            old(self).wf(),
        ensures
            final(self).wf(),
            final(self).is_memory() == old(self).is_memory(),
            old(self).is_memory() ==> *final(self) == *old(self) && (r matches Ok(c)
                && opt_content_view(c) == old(self).mem_content()),
            r matches Ok(Some(c)) ==> c.wf(),
            r matches Err(e) ==> e == ClipboardError::OpenFailed && !old(self).is_memory(),
    {
        match self {
            ClipboardService::Memory(m) => match &m.content {
                Some(c) => Ok(Some(c.duplicate())),
                None => Ok(None),
            },
            ClipboardService::System(sc) => {
                if !sc.ensure_open() {
                    return Err(ClipboardError::OpenFailed);
                }
                match &mut sc.handle {
                    Some(h) => {
                        match clipboard_get_text(h) {
                            Some(t) => Ok(Some(Content::Text(t))),
                            None => match clipboard_get_image(h) {
                                Some((width, height, bytes)) => {
                                    let sized = match width.checked_mul(height) {
                                        Some(wh) => match wh.checked_mul(4) {
                                            Some(n) => n == bytes.len(),
                                            None => false,
                                        },
                                        None => false,
                                    };
                                    if sized {
                                        Ok(Some(Content::Image(Image { width, height, bytes })))
                                    } else {
                                        Ok(None)
                                    }
                                },
                                None => Ok(None),
                            },
                        }
                    },
                    None => Err(ClipboardError::OpenFailed),
                }
            },
        }
    }

    /// Store a value, replacing the previous content as a whole.
    pub fn set(&mut self, content: Content) -> (r: Result<(), ClipboardError>)
        requires
            old(self).wf(),
            content.wf(),
        ensures
            final(self).wf(),
            final(self).is_memory() == old(self).is_memory(),
            old(self).is_memory() ==> r is Ok && final(self).mem_content() == Some(content@),
            r matches Err(e) ==> !old(self).is_memory() && (e == ClipboardError::OpenFailed || (e
                == ClipboardError::SetTextFailed && content matches Content::Text(_)) || (e
                == ClipboardError::SetImageFailed && content matches Content::Image(_))),
    {
        match self {
            ClipboardService::Memory(m) => {
                m.content = Some(content);
                Ok(())
            },
            ClipboardService::System(sc) => {
                if !sc.ensure_open() {
                    return Err(ClipboardError::OpenFailed);
                }
                match &mut sc.handle {
                    Some(h) => match content {
                        Content::Text(t) => {
                            if clipboard_set_text(h, t) {
                                Ok(())
                            } else {
                                Err(ClipboardError::SetTextFailed)
                            }
                        },
                        Content::Image(img) => {
                            // the system path re-encodes with 32-bit dimensions;
                            // one that does not fit cannot be stored
                            if img.width > u32::MAX as usize || img.height > u32::MAX as usize {
                                Err(ClipboardError::SetImageFailed)
                            } else if clipboard_set_image(h, img.width, img.height, img.bytes) {
                                Ok(())
                            } else {
                                Err(ClipboardError::SetImageFailed)
                            }
                        },
                    },
                    None => Err(ClipboardError::OpenFailed),
                }
            },
        }
    }

    /// Empty the clipboard.
    pub fn clear(&mut self) -> (r: Result<(), ClipboardError>)
        requires
            old(self).wf(),
        ensures
            final(self).wf(),
            final(self).is_memory() == old(self).is_memory(),
            old(self).is_memory() ==> r is Ok && final(self).mem_content() == None::<ContentV>,
            r matches Err(e) ==> !old(self).is_memory() && (e == ClipboardError::OpenFailed || e
                == ClipboardError::ClearFailed),
    {
        match self {
            ClipboardService::Memory(m) => {
                m.content = None;
                Ok(())
            },
            ClipboardService::System(sc) => {
                if !sc.ensure_open() {
                    return Err(ClipboardError::OpenFailed);
                }
                match &mut sc.handle {
                    Some(h) => {
                        if clipboard_clear(h) {
                            Ok(())
                        } else {
                            Err(ClipboardError::ClearFailed)
                        }
                    },
                    None => Err(ClipboardError::OpenFailed),
                }
            },
        }
    }
}

} // verus!
