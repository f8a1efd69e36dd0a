use vstd::prelude::*;
use vstd::string::{StringExecFns, StringSliceAdditionalSpecFns};

use crate::codec::{
    base64_decoded, base64_encoded, decode_base64, encode_base64, gray_png, gray_png_of, load,
    loads_as_image, luma_grid, luma_of, rgba_channels, rgba_png, rgba_png_of, to_gray,
    LoadedImage,
};
use crate::gradient::{edge_detect, is_edge_map};
use crate::grid::{LumaGrid, RgbaGrid};

verus! {

/// The byte `,` that ends a data-URL header.
pub const COMMA: u8 = 44;

/// What went wrong while turning a payload into another payload.
#[derive(Clone, Copy, Debug, PartialEq, Eq, Structural)]
pub enum ErrorKind {
    /// The payload is not valid base64.
    PayloadDecode,
    /// The decoded bytes are not an image that can be read.
    ImageDecode,
    /// The result could not be written as PNG.
    ImageEncode,
}

/// An error kind together with the collaborator's own description.
pub struct ProcessError {
    pub kind: ErrorKind,
    pub detail: String,
}

/// `i` is the position of the first comma of `s`.
pub open spec fn is_first_comma(s: Seq<u8>, i: int) -> bool {
    &&& 0 <= i < s.len()
    &&& s[i] == COMMA
    &&& forall|k: int| 0 <= k < i ==> s[k] != COMMA
}

/// `s` holds a comma.
pub open spec fn has_comma(s: Seq<u8>) -> bool {
    exists|i: int| 0 <= i < s.len() && s[i] == COMMA
}

/// The position of the first comma of `s`.
pub open spec fn first_comma(s: Seq<u8>) -> int {
    choose|i: int| is_first_comma(s, i)
}

/// The part of `s` up to its first comma, or all of `s`.
pub open spec fn up_to_comma(s: Seq<u8>) -> Seq<u8> {
    if has_comma(s) {
        s.subrange(0, first_comma(s))
    } else {
        s
    }
}

/// The base64 text of a payload: with a header such as
/// `data:image/png;base64,` it is what follows the first comma, up to the
/// next comma if there is one; without a comma it is the whole payload.
pub open spec fn payload_text(s: Seq<u8>) -> Seq<u8> {
    if has_comma(s) {
        up_to_comma(s.subrange(first_comma(s) + 1, s.len() as int))
    } else {
        s
    }
}

/// The header put in front of every produced payload.
pub open spec fn png_header() -> Seq<char> {
    "data:image/png;base64,"@
}

/// The data URL that carries the PNG file `png`.
pub open spec fn png_payload(png: Seq<u8>) -> Seq<char> {
    png_header() + base64_encoded(png)
}

/// What reading the payload `s` gives: a payload error when its text is
/// not base64, an image error when the bytes are not an image, and
/// otherwise what `then` says of the decoded bytes.
pub open spec fn payload_outcome(
    s: Seq<u8>,
    r: Result<String, ProcessError>,
    then: spec_fn(Seq<u8>, Result<String, ProcessError>) -> bool,
) -> bool {
    match base64_decoded(payload_text(s)) {
        None => r is Err && r->Err_0.kind == ErrorKind::PayloadDecode,
        Some(bytes) => if loads_as_image(bytes) {
            then(bytes, r)
        } else {
            r is Err && r->Err_0.kind == ErrorKind::ImageDecode
        },
    }
}

/// The gray conversion of the image in `bytes`: the PNG of its gray
/// version, or an encoding error exactly when PNG cannot hold it.
pub open spec fn gray_outcome(bytes: Seq<u8>, r: Result<String, ProcessError>) -> bool {
    match gray_png_of(bytes) {
        Some(png) => r is Ok && r->Ok_0@ == png_payload(png),
        None => r is Err && r->Err_0.kind == ErrorKind::ImageEncode,
    }
}

/// `out` is the PNG payload of `grid`.
pub open spec fn is_grid_payload(grid: RgbaGrid, out: Seq<char>) -> bool {
    out == png_payload(rgba_png_of(grid.width, grid.height, rgba_channels(grid.pixels@)))
}

/// The edge detection of the image in `bytes`: the PNG of the edge map of
/// its luminance; success is owed whenever the grid has no zero side and
/// its channels fit in memory.
pub open spec fn edge_outcome(bytes: Seq<u8>, r: Result<String, ProcessError>) -> bool {
    let (width, height, samples) = luma_of(bytes);
    &&& width > 0 && height > 0 && 4 * width * height <= usize::MAX ==> r is Ok
    &&& r is Err ==> r->Err_0.kind == ErrorKind::ImageEncode
    &&& r is Ok ==> exists|g: LumaGrid, e: RgbaGrid|
        g.width == width && g.height == height && g.data@ == samples && #[trigger] is_edge_map(g, e)
            && is_grid_payload(e, r->Ok_0@)
}

/// The first comma at or after `from`, if any.
fn find_comma(b: &[u8], from: usize) -> (r: Option<usize>)
    requires
        from <= b@.len(),
    ensures
        match r {
            Some(i) => from <= i < b@.len() && b@[i as int] == COMMA && forall|k: int|
                from <= k < i ==> b@[k] != COMMA,
            None => forall|k: int| from <= k < b@.len() ==> b@[k] != COMMA,
        },
{
    let mut i = from;
    while i < b.len()
        invariant
            from <= i <= b@.len(),
            forall|k: int| from <= k < i ==> b@[k] != COMMA,
        decreases b@.len() - i,
    {
        if b[i] == COMMA {
            return Some(i);
        }
        i = i + 1;
    }
    None
}

/// The base64 text of the payload `s` (see `payload_text`).
pub fn payload_of(s: &str) -> (r: &[u8])
    ensures
        r@ == payload_text(s.spec_bytes()),
{
    let b = s.as_bytes();
    let len = b.len();
    match find_comma(b, 0) {
        None => {
            assert(!has_comma(b@));
            b
        },
        Some(i) => {
            assert(is_first_comma(b@, i as int));
            proof {
                let f = first_comma(b@);
                assert(is_first_comma(b@, f));
                assert(f == i) by {
                    if f < i {
                        assert(b@[f] != COMMA);
                    } else if i < f {
                        assert(b@[i as int] != COMMA);
                    }
                }
            }
            let ghost rest = b@.subrange(i + 1, b@.len() as int);
            match find_comma(b, i + 1) {
                None => {
                    assert(!has_comma(rest)) by {
                        if has_comma(rest) {
                            let k = choose|k: int| 0 <= k < rest.len() && rest[k] == COMMA;
                            assert(b@[i + 1 + k] == COMMA);
                        }
                    }
                    let r = &b[i + 1..len];
                    assert(r@ == rest);
                    r
                },
                Some(j) => {
                    let ghost rj = j - (i + 1);
                    assert(is_first_comma(rest, rj));
                    proof {
                        let f = first_comma(rest);
                        assert(is_first_comma(rest, f));
                        assert(f == rj) by {
                            if f < rj {
                                assert(rest[f] != COMMA);
                            } else if rj < f {
                                assert(rest[rj] != COMMA);
                            }
                        }
                    }
                    let r = &b[i + 1..j];
                    assert(r@ == rest.subrange(0, rj));
                    r
                },
            }
        },
    }
}

/// The image that the payload `s` holds.
pub fn decode_payload(s: &str) -> (r: Result<LoadedImage, ProcessError>)
    ensures
        match base64_decoded(payload_text(s.spec_bytes())) {
            None => r is Err && r->Err_0.kind == ErrorKind::PayloadDecode,
            Some(bytes) => {
                &&& r is Ok <==> loads_as_image(bytes)
                &&& r is Err ==> r->Err_0.kind == ErrorKind::ImageDecode
                &&& r matches Ok(img) ==> img.source() == bytes
            },
        },
{
    let text = payload_of(s);
    let bytes = match decode_base64(text) {
        Ok(bytes) => bytes,
        Err(e) => {
            return Err(ProcessError { kind: ErrorKind::PayloadDecode, detail: e.to_string() });
        },
    };
    match load(bytes.as_slice()) {
        Ok(img) => Ok(img),
        Err(e) => Err(ProcessError { kind: ErrorKind::ImageDecode, detail: e.to_string() }),
    }
}

/// The data URL that carries the PNG file `png`.
fn png_to_payload(png: &[u8]) -> (r: String)
    ensures
        r@ == png_payload(png@),
{
    let text = encode_base64(png);
    let out = String::from_str("data:image/png;base64,").concat(text.as_str());
    proof {
        reveal_strlit("data:image/png;base64,");
    }
    out
}

/// `grid` as a PNG data URL. It succeeds whenever the grid has no zero side
/// and its channels fit in memory.
pub fn encode_payload(grid: &RgbaGrid) -> (r: Result<String, ProcessError>)
    requires
        grid.wf(),
    ensures
        r matches Ok(out) ==> is_grid_payload(*grid, out@),
        r is Err ==> r->Err_0.kind == ErrorKind::ImageEncode,
        grid.width > 0 && grid.height > 0 && 4 * grid.width * grid.height <= usize::MAX
            ==> r is Ok,
{
    match rgba_png(grid) {
        Ok(png) => Ok(png_to_payload(png.as_slice())),
        Err(e) => Err(ProcessError { kind: ErrorKind::ImageEncode, detail: e.to_string() }),
    }
}

/// The payload `s` converted to gray, as a PNG data URL.
pub fn apply_grayscale(s: &str) -> (r: Result<String, ProcessError>)
    ensures
        payload_outcome(s.spec_bytes(), r, |b: Seq<u8>, r: Result<String, ProcessError>| gray_outcome(b, r)),
{
    let img = match decode_payload(s) {
        Ok(img) => img,
        Err(e) => {
            return Err(e);
        },
    };
    match gray_png(&to_gray(&img)) {
        Ok(png) => Ok(png_to_payload(png.as_slice())),
        Err(e) => Err(ProcessError { kind: ErrorKind::ImageEncode, detail: e.to_string() }),
    }
}

/// The edge map (see `edge_detect`) of the luminance of the payload `s`, as
/// a PNG data URL.
pub fn apply_edge_detection(s: &str) -> (r: Result<String, ProcessError>)
    ensures
        payload_outcome(s.spec_bytes(), r, |b: Seq<u8>, r: Result<String, ProcessError>| edge_outcome(b, r)),
{
    let img = match decode_payload(s) {
        Ok(img) => img,
        Err(e) => {
            return Err(e);
        },
    };
    let luma = luma_grid(&to_gray(&img));
    let edges = edge_detect(&luma);
    let r = encode_payload(&edges);
    assert(is_edge_map(luma, edges));
    r
}

} // verus!
