use vstd::prelude::*;
use crate::error::{RenderError, StorageError};
use crate::merge::{concat, merge_vecs, views};
use crate::shade::{exec_to_vec, shades};
use crate::tiling::TileJob;

verus! {

#[verifier::external_type_specification]
#[verifier::external_body]
pub struct ExEncodingError(png::EncodingError);

#[verifier::external_type_specification]
#[verifier::external_body]
pub struct ExDecodingError(png::DecodingError);

/// The PNG file that png's encoder writes for an 8-bit grayscale raster of
/// the given size, or `None` where it refuses the raster.
pub uninterp spec fn png_encoding(pixels: Seq<u8>, width: u32, height: u32) -> Option<Seq<u8>>;

/// The samples, width and height that png's decoder reads from a file, or
/// `None` where it fails.
pub uninterp spec fn png_decoding(bytes: Seq<u8>) -> Option<(Seq<u8>, u32, u32)>;

/// Relies on png's `Encoder::write_header` and `Writer::write_image_data`,
/// writing 8-bit grayscale into memory: the outcome depends on the samples and
/// the size alone, and `write_header` refuses a zero width or height.
#[verifier::external_body]
fn encode_png(pixels: &Vec<u8>, width: u32, height: u32) -> (r: Result<Vec<u8>, png::EncodingError>)
    ensures
        r is Ok <==> png_encoding(pixels@, width, height) is Some,
        r matches Ok(b) ==> png_encoding(pixels@, width, height) == Some(b@),
        width == 0 || height == 0 ==> r is Err,
{
    let mut bytes: Vec<u8> = Vec::new();
    {
        let mut encoder = png::Encoder::new(&mut bytes, width, height);
        encoder.set_color(png::ColorType::Grayscale);
        encoder.set_depth(png::BitDepth::Eight);
        let mut writer = encoder.write_header()?;
        writer.write_image_data(pixels)?;
    }
    Ok(bytes)
}

/// Relies on png's `Decoder::read_info` and `Reader::next_frame`, reading
/// from memory: the outcome depends on the bytes alone.
#[verifier::external_body]
fn decode_png(bytes: &Vec<u8>) -> (r: Result<(Vec<u8>, u32, u32), png::DecodingError>)
    ensures
        r is Ok <==> png_decoding(bytes@) is Some,
        r matches Ok((p, w, h)) ==> png_decoding(bytes@) == Some((p@, w, h)),
{
    let (info, mut reader) = png::Decoder::new(bytes.as_slice()).read_info()?;
    let mut pixels = vec![0u8; info.buffer_size()];
    reader.next_frame(&mut pixels)?;
    Ok((pixels, info.width, info.height))
}

/// Encodes a raster as a grayscale PNG artifact. The buffer must hold exactly
/// `width * height` samples; it is never truncated or padded.
pub fn encode_artifact(pixels: &Vec<u8>, width: u32, height: u32) -> (r: Result<Vec<u8>, RenderError>)
    ensures
        pixels.len() != width * height <==> r == Err::<Vec<u8>, RenderError>(
            RenderError::SizeMismatch { len: pixels.len(), width, height },
        ),
        pixels.len() == width * height ==> {
            &&& r is Ok <==> png_encoding(pixels@, width, height) is Some
            &&& r matches Ok(b) ==> png_encoding(pixels@, width, height) == Some(b@)
            &&& r is Err ==> r->Err_0 == RenderError::Storage(StorageError::Encode)
        },
        width == 0 || height == 0 ==> r is Err,
{
    proof {
        assert(width * height <= 0xffff_ffff * 0xffff_ffff) by (nonlinear_arith)
            requires width <= 0xffff_ffff, height <= 0xffff_ffff;
    }
    if pixels.len() as u128 != width as u128 * height as u128 {
        return Err(RenderError::SizeMismatch { len: pixels.len(), width, height });
    }
    match encode_png(pixels, width, height) {
        Ok(bytes) => Ok(bytes),
        Err(_) => Err(RenderError::Storage(StorageError::Encode)),
    }
}

/// Shades a band from the iteration counts of its pixels and encodes the
/// result as the band's artifact; the artifact holds exactly the returned
/// samples, at the band's width and height.
pub fn exec(tile: &TileJob, counts: &Vec<usize>) -> (r: Result<(Vec<u8>, Vec<u8>), RenderError>)
    requires
        tile.region.wf(),
        counts.len() == tile.region.area(),
    ensures
        r is Ok <==> png_encoding(
            shades(tile.max_iter as nat, counts@),
            (tile.region.end_x - tile.region.start_x) as u32,
            (tile.region.end_y - tile.region.start_y) as u32,
        ) is Some,
        r matches Ok((pixels, bytes)) ==> {
            &&& pixels@ == shades(tile.max_iter as nat, counts@)
            &&& png_encoding(
                pixels@,
                (tile.region.end_x - tile.region.start_x) as u32,
                (tile.region.end_y - tile.region.start_y) as u32,
            ) == Some(bytes@)
        },
        r is Err ==> r->Err_0 == RenderError::Storage(StorageError::Encode),
{
    let pixels = exec_to_vec(tile, counts);
    let width = tile.region.end_x - tile.region.start_x;
    let height = tile.region.end_y - tile.region.start_y;
    match encode_artifact(&pixels, width, height) {
        Ok(bytes) => Ok((pixels, bytes)),
        Err(e) => Err(e),
    }
}

/// Reads a grayscale artifact back: its samples with its recorded width and
/// height.
pub fn decode_artifact(bytes: &Vec<u8>) -> (r: Result<(Vec<u8>, u32, u32), RenderError>)
    ensures
        r is Ok <==> png_decoding(bytes@) is Some,
        r matches Ok((p, w, h)) ==> png_decoding(bytes@) == Some((p@, w, h)),
        r is Err ==> r->Err_0 == RenderError::Storage(StorageError::Unreadable),
{
    match decode_png(bytes) {
        Ok(decoded) => Ok(decoded),
        Err(_) => Err(RenderError::Storage(StorageError::Unreadable)),
    }
}

/// The samples decoded from each artifact, in order.
pub open spec fn decoded_samples(artifacts: Seq<Vec<u8>>) -> Seq<Seq<u8>> {
    artifacts.map_values(|a: Vec<u8>| png_decoding(a@)->Some_0.0)
}

/// Decodes the band artifacts of a job, in band order, and concatenates their
/// samples into the full raster. Fails at the first artifact that does not
/// decode, naming its position.
pub fn merge(artifacts: &Vec<Vec<u8>>) -> (r: Result<Vec<u8>, RenderError>)
    ensures
        r is Ok <==> forall|i: int| 0 <= i < artifacts.len() ==> (#[trigger] png_decoding(artifacts[i]@)) is Some,
        r matches Ok(m) ==> m@ == concat(decoded_samples(artifacts@)),
        r matches Err(e) ==> exists|index: int| {
            &&& 0 <= index < artifacts.len()
            &&& e == RenderError::Storage(StorageError::Decode { index: index as usize })
            &&& png_decoding(artifacts[index]@) is None
            &&& forall|j: int| 0 <= j < index ==> (#[trigger] png_decoding(artifacts[j]@)) is Some
        },
{
    let mut parts: Vec<Vec<u8>> = Vec::with_capacity(artifacts.len());
    let mut i: usize = 0;
    while i < artifacts.len()
        invariant
            i <= artifacts.len(),
            parts.len() == i,
            forall|j: int| 0 <= j < i ==> (#[trigger] png_decoding(artifacts[j]@)) is Some,
            views(parts@) == decoded_samples(artifacts@).take(i as int),
        decreases artifacts.len() - i,
    {
        match decode_png(&artifacts[i]) {
            Ok((pixels, _, _)) => {
                parts.push(pixels);
            },
            Err(_) => {
                return Err(RenderError::Storage(StorageError::Decode { index: i }));
            },
        }
        i = i + 1;
        assert(views(parts@) =~= decoded_samples(artifacts@).take(i as int));
    }
    assert(decoded_samples(artifacts@).take(artifacts.len() as int) =~= decoded_samples(artifacts@));
    Ok(merge_vecs(parts))
}

} // verus!
