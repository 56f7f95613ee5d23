//! The clipboard mirror: the events it emits for host clipboard content,
//! the echo suppression of content the agent wrote itself, and the content
//! a client pushes.

use crate::digest::{blake3_hex_of, content_hash};
use crate::encode::{encode_rgba_to_png, png_of, png_size_ok};
use vstd::prelude::*;
use vstd::string::StringExecFns;

verus! {

/// Clipboard content. Images travel as PNG bytes; a file list carries
/// names only.
#[derive(Clone, Debug)]
pub enum ClipboardContent {
    Text(String),
    Image { png_data: Vec<u8>, width: u32, height: u32 },
    Files(Vec<String>),
}

/// New clipboard content with the hex BLAKE3 digest of its payload.
#[derive(Clone, Debug)]
pub struct ClipboardEvent {
    pub content: ClipboardContent,
    pub content_hash: String,
}

/// What an image file (PNG or another format the decoder knows) decodes
/// to: its RGBA pixels with its width and height, or nothing where it does
/// not decode.
pub uninterp spec fn decoded_of(bytes: Seq<u8>) -> Option<(Seq<u8>, u32, u32)>;

/// Relies on `image::load_from_memory` and `DynamicImage::to_rgba8`: the
/// decoded image as 8-bit RGBA, four bytes per pixel, with its size.
#[verifier::external_body]
fn decode_image(bytes: &[u8]) -> (r: Option<(Vec<u8>, u32, u32)>)
    ensures
        r is Some <==> decoded_of(bytes@) is Some,
        r matches Some((px, w, h)) ==> decoded_of(bytes@) == Some((px@, w, h)) && px@.len() == 4 * w * h,
{
    match image::load_from_memory(bytes) {
        Ok(img) => {
            let rgba = img.to_rgba8();
            let (w, h) = (rgba.width(), rgba.height());
            Some((rgba.into_raw(), w, h))
        },
        Err(_) => None,
    }
}

/// Decodes an image pushed by a client into RGBA for the host clipboard;
/// its size comes from the file's own header.
pub fn decode_png(png_data: &Vec<u8>) -> (r: Option<(Vec<u8>, u32, u32)>)
    ensures
        r is Some <==> decoded_of(png_data@) is Some,
        r matches Some((px, w, h)) ==> decoded_of(png_data@) == Some((px@, w, h)) && px@.len() == 4 * w * h,
{
    decode_image(png_data.as_slice())
}

/// What the mirror remembers: the digest it last broadcast and the digest
/// of what it last wrote to the host clipboard.
pub struct ClipboardMirror {
    last_broadcast_hash: Option<String>,
    last_set_hash: Option<String>,
}

pub open spec fn opt_view(o: Option<String>) -> Option<Seq<char>> {
    match o {
        Some(s) => Some(s@),
        None => None,
    }
}

/// One poll that read content with digest `h`: the new broadcast digest
/// and whether an event goes out. Content already broadcast is skipped;
/// content the agent wrote itself is skipped too but counts as seen.
pub open spec fn poll_step(broadcast: Option<Seq<char>>, last_set: Option<Seq<char>>, h: Seq<char>) -> (
    Option<Seq<char>>,
    bool,
) {
    if broadcast == Some(h) {
        (broadcast, false)
    } else if last_set == Some(h) {
        (Some(h), false)
    } else {
        (Some(h), true)
    }
}

impl ClipboardMirror {
    pub closed spec fn broadcast(&self) -> Option<Seq<char>> {
        opt_view(self.last_broadcast_hash)
    }

    pub closed spec fn last_set(&self) -> Option<Seq<char>> {
        opt_view(self.last_set_hash)
    }

    /// Nothing broadcast, nothing written.
    pub fn new() -> (r: Self)
        ensures
            r.broadcast() is None,
            r.last_set() is None,
    {
        ClipboardMirror { last_broadcast_hash: None, last_set_hash: None }
    }

    /// Decides, for content just read from the host clipboard, whether to
    /// broadcast it.
    pub fn poll_changed(&mut self, hash: &String) -> (r: bool)
        ensures
            (final(self).broadcast(), r) == poll_step(old(self).broadcast(), old(self).last_set(), hash@),
            final(self).last_set() == old(self).last_set(),
    {
        let seen = match &self.last_broadcast_hash {
            Some(b) => *b == *hash,
            None => false,
        };
        if seen {
            return false;
        }
        let echo = match &self.last_set_hash {
            Some(s) => *s == *hash,
            None => false,
        };
        self.last_broadcast_hash = Some(hash.clone());
        !echo
    }
}

/// Records the digest of content just written to the host clipboard, so
/// that the next poll does not send it back to the clients.
pub fn record_set_hash(mirror: &mut ClipboardMirror, hash: &str)
    ensures
        final(mirror).last_set() == Some(hash@),
        final(mirror).broadcast() == old(mirror).broadcast(),
{
    mirror.last_set_hash = Some(hash.to_owned());
}

/// The digest last written to the host clipboard.
pub fn get_last_set_hash(mirror: &ClipboardMirror) -> (r: Option<String>)
    ensures
        opt_view(r) == mirror.last_set(),
{
    match &mirror.last_set_hash {
        Some(s) => Some(s.clone()),
        None => None,
    }
}

/// The event for text read from the host clipboard; none for empty text.
pub fn text_event(text: String) -> (r: Option<ClipboardEvent>)
    ensures
        r is Some <==> text@.len() > 0,
        r matches Some(e) ==> (e.content matches ClipboardContent::Text(t) && t@ == text@)
            && e.content_hash@ == blake3_hex_of(vstd::utf8::encode_utf8(text@)),
{
    if text.as_str().is_empty() {
        return None;
    }
    let hash = content_hash(text.as_str().as_bytes());
    Some(ClipboardEvent { content: ClipboardContent::Text(text), content_hash: hash })
}

/// The event for an RGBA image read from the host clipboard: the image
/// travels as PNG and the digest is that of the PNG bytes. `None` where
/// the PNG encoder fails, which it does not on any size `png_size_ok`
/// admits.
pub fn image_event(rgba: &Vec<u8>, width: u32, height: u32) -> (r: Option<ClipboardEvent>)
    requires
        rgba@.len() == 4 * width * height,
    ensures
        png_size_ok(width, height) ==> r is Some,
        r matches Some(e) ==> (e.content matches ClipboardContent::Image { png_data, width: w, height: h }
            && png_data@ == png_of(rgba@, width, height) && w == width && h == height
            && e.content_hash@ == blake3_hex_of(png_data@)),
{
    match encode_rgba_to_png(rgba, width, height) {
        Ok(png) => {
            let hash = content_hash(png.as_slice());
            Some(
                ClipboardEvent {
                    content: ClipboardContent::Image { png_data: png, width, height },
                    content_hash: hash,
                },
            )
        },
        Err(_) => None,
    }
}

/// Names joined by newlines.
pub open spec fn joined_lines(names: Seq<Seq<char>>) -> Seq<char>
    decreases names.len(),
{
    if names.len() == 0 {
        Seq::empty()
    } else if names.len() == 1 {
        names[0]
    } else {
        joined_lines(names.drop_last()) + "\n"@ + names.last()
    }
}

/// Text written to the host clipboard in place of a pushed file list,
/// since file contents are not transferred.
pub fn file_list_stub_text(names: &Vec<String>) -> (r: String)
    ensures
        r@ == "[Files \u{2014} transfer not implemented]\n"@ + joined_lines(names@.map_values(|s: String| s@)),
{
    let mut joined = String::from_str("");
    let mut i: usize = 0;
    proof {
        reveal_strlit("");
    }
    while i < names.len()
        invariant
            i <= names@.len(),
            joined@ == joined_lines(names@.subrange(0, i as int).map_values(|s: String| s@)),
        decreases names@.len() - i,
    {
        proof {
            let pre = names@.subrange(0, i as int + 1).map_values(|s: String| s@);
            assert(pre.drop_last() =~= names@.subrange(0, i as int).map_values(|s: String| s@));
            assert(pre.last() == names@[i as int]@);
            if i == 0 {
                assert(joined@ =~= Seq::<char>::empty());
            }
        }
        if i == 0 {
            joined = String::from_str(names[i].as_str());
            proof {
                assert(joined@ =~= names@[0]@);
            }
        } else {
            joined = joined.concat("\n");
            joined = joined.concat(names[i].as_str());
        }
        i = i + 1;
    }
    proof {
        assert(names@.subrange(0, names@.len() as int) =~= names@);
    }
    let head = String::from_str("[Files \u{2014} transfer not implemented]\n");
    head.concat(joined.as_str())
}

/// Echo suppression: once the agent has written content with digest `h`
/// to the host clipboard and recorded it, a poll that reads `h` back emits
/// no event, while a later poll of other content does.
pub proof fn echo_is_suppressed(broadcast: Option<Seq<char>>, h: Seq<char>, other: Seq<char>)
    requires
        other != h,
    ensures
        !poll_step(broadcast, Some(h), h).1,
        poll_step(poll_step(broadcast, Some(h), h).0, Some(h), other).1,
{
}

} // verus!
