//! Clipboard content: either a text string or an RGBA image with explicit
//! dimensions. An image carries exactly `width * height * 4` bytes of pixel
//! data (4 bytes per pixel, row-major, no padding).

use vstd::prelude::*;

verus! {

/// Mathematical model of an image: dimensions and raw pixel bytes.
pub struct ImageV {
    pub width: nat,
    pub height: nat,
    pub bytes: Seq<u8>,
}

impl ImageV {
    /// The pixel buffer holds exactly 4 bytes per pixel.
    pub open spec fn wf(&self) -> bool {
        self.bytes.len() == self.width * self.height * 4
    }
}

/// An RGBA image as carried over the wire and handed to the clipboard.
pub struct Image {
    pub width: usize,
    pub height: usize,
    pub bytes: Vec<u8>,
}

impl View for Image {
    type V = ImageV;

    open spec fn view(&self) -> ImageV {
        ImageV { width: self.width as nat, height: self.height as nat, bytes: self.bytes@ }
    }
}

impl Image {
    pub open spec fn wf(&self) -> bool {
        self@.wf()
    }
}

/// Mathematical model of a clipboard value.
pub enum ContentV {
    Text(Seq<char>),
    Image(ImageV),
}

impl ContentV {
    pub open spec fn wf(&self) -> bool {
        match self {
            ContentV::Text(_) => true,
            ContentV::Image(iv) => iv.wf(),
        }
    }
}

/// A clipboard value: a text string or an RGBA image.
pub enum Content {
    Text(String),
    Image(Image),
}

impl View for Content {
    type V = ContentV;

    open spec fn view(&self) -> ContentV {
        match self {
            Content::Text(s) => ContentV::Text(s@),
            Content::Image(img) => ContentV::Image(img@),
        }
    }
}

impl Content {
    pub open spec fn wf(&self) -> bool {
        self@.wf()
    }

    /// A deep copy whose model equals this value's model.
    pub fn duplicate(&self) -> (c: Content)
        ensures
            c@ == self@,
    {
        match self {
            Content::Text(s) => Content::Text(s.clone()),
            Content::Image(img) => {
                let bytes = clone_bytes(&img.bytes);
                Content::Image(Image { width: img.width, height: img.height, bytes })
            },
        }
    }
}

/// The model of an optional clipboard value.
pub open spec fn opt_content_view(c: Option<Content>) -> Option<ContentV> {
    match c {
        Some(content) => Some(content@),
        None => None,
    }
}

pub open spec fn opt_content_wf(c: Option<ContentV>) -> bool {
    match c {
        Some(cv) => cv.wf(),
        None => true,
    }
}

/// A deep copy of a byte vector.
pub fn clone_bytes(v: &Vec<u8>) -> (out: Vec<u8>)
    ensures
        out@ == v@,
{
    let out = v.clone();
    proof {
        assert(out@ =~= v@);
    }
    out
}

} // verus!
