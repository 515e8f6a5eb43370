//! The codec table and the text services that the decoders rest on:
//! conversion between bytes and text, grapheme segmentation, and display
//! width. The conversions themselves are the work of outside libraries;
//! this module names their results and states what it relies on.

use crate::encoding::CharEncoding;
use unicode_segmentation::UnicodeSegmentation;
use unicode_width::UnicodeWidthStr;
use vstd::prelude::*;
use vstd::utf8::encode_utf8;

verus! {

/// `encoding_rs::Encoding`: a codec, carried about as it is.
#[verifier::external_type_specification]
#[verifier::external_body]
pub struct ExEncoding(encoding_rs::Encoding);

/// The codec of `encoding_rs` that stands behind `encoding`.
pub uninterp spec fn codec_of(encoding: CharEncoding) -> encoding_rs::Encoding;

/// What `encoding_rs::Encoding::decode` yields for the codec of `encoding`
/// on `bytes`: the decoded text, and whether a malformed sequence was met
/// (and replaced).
pub uninterp spec fn codec_decode(encoding: CharEncoding, bytes: Seq<u8>) -> (Seq<char>, bool);

/// What `encoding_rs::Encoding::encode` yields for the codec of `encoding`
/// on `text`: the encoded bytes, and whether a character could not be
/// mapped (and was replaced).
pub uninterp spec fn codec_encode(encoding: CharEncoding, text: Seq<char>) -> (Seq<u8>, bool);

/// The extended grapheme clusters of `text`, in order, as
/// `unicode_segmentation` finds them.
pub uninterp spec fn grapheme_clusters(text: Seq<char>) -> Seq<Seq<char>>;

/// The number of terminal columns that `text` takes, as `unicode_width`
/// counts them outside an East Asian context.
pub uninterp spec fn display_width(text: Seq<char>) -> nat;

/// The longest input, in bytes, that is handed to a codec. A codec sizes
/// its output buffer at a small multiple of the input length, rounded up to
/// a power of two; inputs up to this length keep that clear of `usize::MAX`.
pub const MAX_CODEC_INPUT: usize = usize::MAX / 64;

/// Whether `prefix` is a non-empty prefix of `text`.
pub open spec fn is_nonempty_prefix(prefix: Seq<char>, text: Seq<char>) -> bool {
    0 < prefix.len() <= text.len() && text.take(prefix.len() as int) == prefix
}

impl CharEncoding {
    /// The codec of `encoding_rs` that stands behind this encoding: one of
    /// the codecs that the crate defines, by this table. ASCII and Latin-1
    /// share the windows-1252 codec. The codec is opaque here; what it does
    /// is named by `codec_decode` and `codec_encode`.
    #[verifier::external_body]
    pub fn to_encoding(&self) -> (codec: &'static encoding_rs::Encoding)
        ensures
            *codec == codec_of(*self),
    {
        match self {
            CharEncoding::Utf8 => encoding_rs::UTF_8,
            CharEncoding::Utf16Le => encoding_rs::UTF_16LE,
            CharEncoding::Utf16Be => encoding_rs::UTF_16BE,
            CharEncoding::ShiftJis => encoding_rs::SHIFT_JIS,
            CharEncoding::EucJp => encoding_rs::EUC_JP,
            CharEncoding::Iso2022Jp => encoding_rs::ISO_2022_JP,
            CharEncoding::Ascii | CharEncoding::Latin1 => encoding_rs::WINDOWS_1252,
        }
    }
}

/// `encoding_rs::Encoding::decode` on the codec of `encoding`: decodes the
/// whole of `bytes`, sniffing a byte order mark and replacing malformed
/// sequences. The result is the named one. The length bound keeps the
/// codec's buffer size computation from overflowing, on which it panics.
#[verifier::external_body]
fn codec_decode_bytes(
    encoding: CharEncoding,
    codec: &'static encoding_rs::Encoding,
    bytes: &[u8],
) -> (decoded: (String, bool))
    requires
        *codec == codec_of(encoding),
        bytes@.len() <= MAX_CODEC_INPUT,
    ensures
        (decoded.0@, decoded.1) == codec_decode(encoding, bytes@),
{
    let (text, _, had_errors) = codec.decode(bytes);
    (text.into_owned(), had_errors)
}

/// `encoding_rs::Encoding::encode` on the codec of `encoding`: encodes the
/// whole of `text`, replacing what cannot be mapped. The result is the
/// named one. The length bound keeps the codec's buffer size computation
/// from overflowing, on which it panics.
#[verifier::external_body]
fn codec_encode_text(
    encoding: CharEncoding,
    codec: &'static encoding_rs::Encoding,
    text: &str,
) -> (encoded: (Vec<u8>, bool))
    requires
        *codec == codec_of(encoding),
        encode_utf8(text@).len() <= MAX_CODEC_INPUT,
    ensures
        (encoded.0@, encoded.1) == codec_encode(encoding, text@),
{
    let (bytes, _, had_errors) = codec.encode(text);
    (bytes.into_owned(), had_errors)
}

/// What the codec of `encoding` decodes `bytes` to, and whether it met a
/// malformed sequence.
pub fn decode_lossy(encoding: CharEncoding, bytes: &[u8]) -> (decoded: (String, bool))
    requires
        bytes@.len() <= MAX_CODEC_INPUT,
    ensures
        (decoded.0@, decoded.1) == codec_decode(encoding, bytes@),
{
    codec_decode_bytes(encoding, encoding.to_encoding(), bytes)
}

/// What the codec of `encoding` encodes `text` to, and whether it met a
/// character that it cannot map.
pub fn encode_lossy(encoding: CharEncoding, text: &str) -> (encoded: (Vec<u8>, bool))
    requires
        encode_utf8(text@).len() <= MAX_CODEC_INPUT,
    ensures
        (encoded.0@, encoded.1) == codec_encode(encoding, text@),
{
    codec_encode_text(encoding, encoding.to_encoding(), text)
}

/// `unicode_width::UnicodeWidthStr::width`: the displayed width of `text`
/// in columns. The result is the named one; a single printable ASCII
/// character takes one column.
#[verifier::external_body]
pub(crate) fn str_width(text: &str) -> (width: usize)
    ensures
        width == display_width(text@),
        text@.len() == 1 && 0x20 <= text@[0] as u32 <= 0x7E ==> width == 1,
{
    UnicodeWidthStr::width(text)
}

/// The extended grapheme clusters of `text`, in order
/// (`unicode_segmentation::UnicodeSegmentation::graphemes`). The result is
/// the named one; where the text is not empty there is a first cluster, and
/// it is a non-empty prefix of the text.
#[verifier::external_body]
pub fn graphemes(text: &str) -> (clusters: Vec<&str>)
    ensures
        clusters.deep_view() == grapheme_clusters(text@),
        text@.len() > 0 ==> clusters@.len() > 0 && is_nonempty_prefix(clusters@[0]@, text@),
{
    text.graphemes(true).collect()
}

/// The text that `bytes` decode to under `encoding`, malformed sequences
/// replaced.
pub fn decode_bytes(bytes: &[u8], encoding: CharEncoding) -> (text: String)
    requires
        bytes@.len() <= MAX_CODEC_INPUT,
    ensures
        text@ == codec_decode(encoding, bytes@).0,
{
    let (text, _) = decode_lossy(encoding, bytes);
    text
}

/// The bytes that `text` encodes to under `encoding`, unmappable
/// characters replaced.
pub fn encode_string(text: &str, encoding: CharEncoding) -> (bytes: Vec<u8>)
    requires
        encode_utf8(text@).len() <= MAX_CODEC_INPUT,
    ensures
        bytes@ == codec_encode(encoding, text@).0,
{
    let (bytes, _) = encode_lossy(encoding, text);
    bytes
}

/// What the codec replied to a request to encode one character: the bytes
/// where every character could be mapped, nothing where one could not.
pub open spec fn encoded_or_none(reply: (Seq<u8>, bool)) -> Option<Seq<u8>> {
    if reply.1 {
        None
    } else {
        Some(reply.0)
    }
}

/// The bytes of one character under `encoding`, or `None` where the
/// encoding has no bytes for it.
pub fn encode_char(ch: char, encoding: CharEncoding) -> (bytes: Option<Vec<u8>>)
    ensures
        bytes.deep_view() == encoded_or_none(codec_encode(encoding, seq![ch])),
{
    let mut text = String::new();
    text.push(ch);
    proof {
        assert(text@ =~= seq![ch]);
        reveal_with_fuel(encode_utf8, 2);
        assert(encode_utf8(text@).len() <= 4);
    }
    let (bytes, had_errors) = encode_lossy(encoding, text.as_str());
    if had_errors {
        None
    } else {
        Some(bytes)
    }
}

/// The sum of the display widths of `clusters`.
pub open spec fn total_width(clusters: Seq<Seq<char>>) -> nat
    decreases clusters.len(),
{
    if clusters.len() == 0 {
        0
    } else {
        total_width(clusters.drop_last()) + display_width(clusters.last())
    }
}

/// The display width of `text`: the sum of the widths of its grapheme
/// clusters, held at `usize::MAX` where the sum would pass it.
pub fn grapheme_width(text: &str) -> (width: usize)
    ensures
        width == if total_width(grapheme_clusters(text@)) <= usize::MAX {
            total_width(grapheme_clusters(text@))
        } else {
            usize::MAX as nat
        },
{
    let clusters = graphemes(text);
    let ghost all = grapheme_clusters(text@);
    let mut width: usize = 0;
    let mut done: usize = 0;
    while done < clusters.len()
        invariant
            done <= clusters.len(),
            clusters.deep_view() == all,
            width == if total_width(all.take(done as int)) <= usize::MAX {
                total_width(all.take(done as int))
            } else {
                usize::MAX as nat
            },
        decreases clusters.len() - done,
    {
        let cluster = clusters[done];
        let wide = str_width(cluster);
        proof {
            let next = all.take(done + 1);
            assert(next.drop_last() =~= all.take(done as int));
            assert(next.last() == all[done as int]);
            assert(clusters.deep_view()[done as int] == cluster@);
        }
        width = width.saturating_add(wide);
        done = done + 1;
    }
    assert(all.take(done as int) =~= all);
    width
}

} // verus!
