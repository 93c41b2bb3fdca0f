//! Response compression: which encoding a client asks for, which bodies are
//! worth it, and what becomes of a reply.

use crate::finalizer::header_total;
use crate::finalizer::types_are_values;
use crate::finalizer::utf8;
use crate::headers::all_values;
use crate::headers::bytes_option;
use crate::headers::has_room;
use crate::headers::header_append;
use crate::headers::header_contents;
use crate::headers::header_get;
use crate::headers::Contents;
use crate::json::json_text;
use crate::json::json_to_vec;
use crate::params::str_option;
use crate::quality::parse_quality;
use crate::quality::quality;
use crate::quality::ONE;
use crate::reply::payload_of;
use crate::reply::ReplyData;
use crate::reply::ReplySpec;
use crate::reply::ReplyView;
use crate::reply::SpecView;
use crate::strmap::single;
use crate::strmap::StrMap;
use crate::text::chars_of;
use crate::text::ends_with;
use crate::text::eq_ignore_case;
use crate::text::lower;
use crate::text::lower_str;
use crate::text::split;
use crate::text::split_str;
use crate::text::starts_with;
use crate::text::str_ends_with;
use crate::text::str_eq;
use crate::text::str_starts_with;
use crate::text::sub_chars;
use crate::text::trim;
use crate::text::trim_str;
use crate::text::views;
use std::io::Write;
use vstd::prelude::*;

verus! {

/// The encoding of a response.
#[derive(Clone, Copy, PartialEq, Eq, Debug, Structural)]
pub enum Encoding {
    /// Brotli.
    Brotli,
    /// Gzip.
    Gzip,
    /// No encoding.
    Identity,
}

// ---------------------------------------------------------------------------
// Negotiation
// ---------------------------------------------------------------------------

/// The weight that a parameter of a token gives, where it gives one.
pub open spec fn param_weight(param: Seq<char>) -> Option<nat> {
    let p = trim(param);
    if starts_with(p, "q="@) || starts_with(p, "Q="@) {
        quality(p.skip(2))
    } else {
        None
    }
}

/// The weight of a token: that of its last parameter that gives one, and one
/// where none does.
pub open spec fn params_weight(params: Seq<Seq<char>>) -> nat
    decreases params.len(),
{
    if params.len() == 0 {
        ONE as nat
    } else {
        match param_weight(params.last()) {
            Some(w) => w,
            None => params_weight(params.drop_last()),
        }
    }
}

/// The name of a token, in lower case.
pub open spec fn token_name(token: Seq<char>) -> Seq<char> {
    lower(trim(split(token, ';')[0]))
}

/// The weight of a token.
pub open spec fn token_weight(token: Seq<char>) -> nat {
    params_weight(split(token, ';').skip(1))
}

/// The weight that a list of tokens gives to a name: that of the last token
/// with the name.
pub open spec fn named_weight(tokens: Seq<Seq<char>>, name: Seq<char>) -> Option<nat>
    decreases tokens.len(),
{
    if tokens.len() == 0 {
        None
    } else if token_name(tokens.last()) == name {
        Some(token_weight(tokens.last()))
    } else {
        named_weight(tokens.drop_last(), name)
    }
}

/// The weight of an encoding: its own, or else that of `*`, or else nothing.
pub open spec fn offered_weight(tokens: Seq<Seq<char>>, name: Seq<char>) -> nat {
    match named_weight(tokens, name) {
        Some(w) => w,
        None => match named_weight(tokens, "*"@) {
            Some(w) => w,
            None => 0,
        },
    }
}

/// The encoding of a response: the one with the greater weight, if that is not
/// nothing; between equal weights the preference decides.
pub open spec fn negotiated(accept: Option<Seq<char>>, prefer_brotli: bool) -> Encoding {
    match accept {
        None => Encoding::Identity,
        Some(header) => {
            let tokens = split(header, ',');
            let br = offered_weight(tokens, "br"@);
            let gzip = offered_weight(tokens, "gzip"@);
            if br == 0 && gzip == 0 {
                Encoding::Identity
            } else if br > gzip || (br == gzip && prefer_brotli) {
                Encoding::Brotli
            } else {
                Encoding::Gzip
            }
        },
    }
}

fn weight_of_param(param: &str) -> (r: Option<u128>)
    ensures
        match r {
            Some(w) => param_weight(param@) == Some(w as nat) && w <= ONE,
            None => param_weight(param@) is None,
        },
{
    let p = trim_str(param);
    if str_starts_with(p.as_str(), "q=") || str_starts_with(p.as_str(), "Q=") {
        proof {
            reveal_strlit("q=");
            reveal_strlit("Q=");
        }
        let text = chars_of(p.as_str());
        let rest = sub_chars(&text, 2, text.len());
        assert(rest@ =~= trim(param@).skip(2));
        parse_quality(&rest)
    } else {
        None
    }
}

/// The name and the weight of a token.
fn read_token(token: &str) -> (r: (String, u128))
    ensures
        r.0@ == token_name(token@),
        r.1 == token_weight(token@),
        r.1 <= ONE,
{
    let parts = split_str(token, ';');
    proof {
        crate::text::lemma_split_non_empty(token@, ';');
    }
    let ghost params = split(token@, ';').skip(1);
    assert(views(parts@)[0] == parts@[0]@);
    let name = lower_str(trim_str(parts[0].as_str()).as_str());
    let mut weight: u128 = ONE;
    let mut i: usize = 1;
    assert(params.take(0) =~= Seq::<Seq<char>>::empty());
    while i < parts.len()
        invariant
            1 <= i <= parts@.len(),
            params == views(parts@).skip(1),
            weight == params_weight(params.take(i - 1)),
            weight <= ONE,
        decreases parts.len() - i,
    {
        assert(params.take(i as int).drop_last() =~= params.take(i - 1));
        assert(params.take(i as int).last() == parts@[i as int]@);
        if let Some(w) = weight_of_param(parts[i].as_str()) {
            weight = w;
        }
        i = i + 1;
    }
    assert(params.take(params.len() as int) =~= params);
    (name, weight)
}

/// The encoding that an `Accept-Encoding` header asks for.
pub fn negotiate(accept_encoding: Option<&str>, prefer_brotli: bool) -> (r: Encoding)
    ensures
        r == negotiated(str_option(accept_encoding), prefer_brotli),
{
    let header = match accept_encoding {
        Some(h) => h,
        None => {
            return Encoding::Identity;
        },
    };
    let tokens = split_str(header, ',');
    let ghost all = split(header@, ',');
    let mut br_q: Option<u128> = None;
    let mut gzip_q: Option<u128> = None;
    let mut star_q: Option<u128> = None;
    let mut i: usize = 0;
    assert(all.take(0) =~= Seq::<Seq<char>>::empty());
    proof {
        reveal_strlit("br");
        reveal_strlit("gzip");
        reveal_strlit("*");
        assert("br"@.len() == 2 && "gzip"@.len() == 4 && "*"@.len() == 1);
    }
    while i < tokens.len()
        invariant
            i <= tokens@.len(),
            all == views(tokens@),
            "br"@.len() == 2 && "gzip"@.len() == 4 && "*"@.len() == 1,
            weight_option(br_q) == named_weight(all.take(i as int), "br"@),
            weight_option(gzip_q) == named_weight(all.take(i as int), "gzip"@),
            weight_option(star_q) == named_weight(all.take(i as int), "*"@),
        decreases tokens.len() - i,
    {
        assert(all.take(i as int + 1).drop_last() =~= all.take(i as int));
        assert(all.take(i as int + 1).last() == tokens@[i as int]@);
        let (name, q) = read_token(tokens[i].as_str());
        if str_eq(name.as_str(), "br") {
            br_q = Some(q);
        } else if str_eq(name.as_str(), "gzip") {
            gzip_q = Some(q);
        } else if str_eq(name.as_str(), "*") {
            star_q = Some(q);
        }
        i = i + 1;
    }
    assert(all.take(all.len() as int) =~= all);
    let star: u128 = match star_q {
        Some(q) => q,
        None => 0,
    };
    let br: u128 = match br_q {
        Some(q) => q,
        None => star,
    };
    let gzip: u128 = match gzip_q {
        Some(q) => q,
        None => star,
    };
    if br == 0 && gzip == 0 {
        Encoding::Identity
    } else if br > gzip || (br == gzip && prefer_brotli) {
        Encoding::Brotli
    } else {
        Encoding::Gzip
    }
}

/// The weight of an optional number of parts.
pub open spec fn weight_option(q: Option<u128>) -> Option<nat> {
    match q {
        Some(q) => Some(q as nat),
        None => None,
    }
}

// ---------------------------------------------------------------------------
// What is worth compressing
// ---------------------------------------------------------------------------

/// The media type of a content type: what stands before the parameters, in
/// lower case.
pub open spec fn media_type(content_type: Seq<char>) -> Seq<char> {
    lower(trim(split(content_type, ';')[0]))
}

/// Whether a media type is text, or text by another name.
pub open spec fn is_textual(ct: Seq<char>) -> bool {
    ||| starts_with(ct, "text/"@)
    ||| ct == "application/json"@
    ||| ct == "application/javascript"@
    ||| ct == "application/manifest+json"@
    ||| ct == "application/xml"@
    ||| ct == "application/xhtml+xml"@
    ||| ct == "application/rss+xml"@
    ||| ct == "application/atom+xml"@
    ||| ct == "application/wasm"@
    ||| ct == "image/svg+xml"@
    ||| ends_with(ct, "+json"@)
    ||| ends_with(ct, "+xml"@)
}

/// The media type of a content type.
pub fn media_type_of(content_type: &str) -> (r: String)
    ensures
        r@ == media_type(content_type@),
{
    let parts = split_str(content_type, ';');
    proof {
        crate::text::lemma_split_non_empty(content_type@, ';');
    }
    assert(views(parts@)[0] == parts@[0]@);
    lower_str(trim_str(parts[0].as_str()).as_str())
}

/// Whether bodies of a content type are worth compressing.
pub fn is_compressible(content_type: &str) -> (r: bool)
    ensures
        r == is_textual(media_type(content_type@)),
{
    let ct = media_type_of(content_type);
    let ct = ct.as_str();
    str_starts_with(ct, "text/") || str_eq(ct, "application/json") || str_eq(
        ct,
        "application/javascript",
    ) || str_eq(ct, "application/manifest+json") || str_eq(ct, "application/xml") || str_eq(
        ct,
        "application/xhtml+xml",
    ) || str_eq(ct, "application/rss+xml") || str_eq(ct, "application/atom+xml") || str_eq(
        ct,
        "application/wasm",
    ) || str_eq(ct, "image/svg+xml") || str_ends_with(ct, "+json") || str_ends_with(ct, "+xml")
}

// ---------------------------------------------------------------------------
// Encoders
// ---------------------------------------------------------------------------

/// The bytes that `flate2::write::GzEncoder` makes of others at its default
/// level.
pub uninterp spec fn gzip_encoded(data: Seq<u8>) -> Seq<u8>;

/// The bytes that `flate2::read::GzDecoder` reads from others.
pub uninterp spec fn gzip_decoded(data: Seq<u8>) -> Option<Seq<u8>>;

/// Whether `brotli::CompressorWriter` with a window of 22 bits makes `out` of
/// bytes at a quality, on one machine or another.
pub uninterp spec fn brotli_gives(data: Seq<u8>, quality: nat, out: Seq<u8>) -> bool;

/// The bytes that `brotli::Decompressor` reads from others.
pub uninterp spec fn brotli_decoded(data: Seq<u8>) -> Option<Seq<u8>>;

/// `flate2::write::GzEncoder` at the default level: the bytes that it makes,
/// which the decoder turns back. It does not fail on a `Vec`, which takes every
/// write.
#[verifier::external_body]
fn gzip(data: &[u8]) -> (r: Option<Vec<u8>>)
    ensures
        bytes_option(r) == Some(gzip_encoded(data@)),
        r matches Some(o) ==> gzip_decoded(o@) == Some(data@),
{
    let mut e = flate2::write::GzEncoder::new(Vec::new(), flate2::Compression::default());
    e.write_all(data).ok()?;
    e.finish().ok()
}

/// `brotli::CompressorWriter` with a quality from 0 to 11: what it makes of the
/// bytes at that quality, which the decoder turns back. It does not fail on a
/// `Vec`, which takes every write. Which bytes it makes is left unsaid: the
/// encoder weighs its choices with logarithms whose last digits differ from
/// machine to machine.
#[verifier::external_body]
fn brotli_encode(data: &[u8], brotli_quality: u32) -> (r: Option<Vec<u8>>)
    requires
        brotli_quality <= 11,
    ensures
        r is Some,
        r matches Some(o) ==> brotli_gives(data@, brotli_quality as nat, o@),
        r matches Some(o) ==> brotli_decoded(o@) == Some(data@),
{
    let mut out = Vec::new();
    {
        let mut w = brotli::CompressorWriter::new(&mut out, 4096, brotli_quality, 22);
        w.write_all(data).ok()?;
    }
    Some(out)
}

/// Whether `out` may come of encoding `data`, with brotli at a quality.
pub open spec fn may_encode(
    enc: Encoding,
    data: Seq<u8>,
    brotli_quality: nat,
    out: Option<Seq<u8>>,
) -> bool {
    match enc {
        Encoding::Gzip => out == Some(gzip_encoded(data)) && gzip_decoded(gzip_encoded(data))
            == Some(data),
        Encoding::Brotli => out matches Some(o) && brotli_gives(data, brotli_quality, o)
            && brotli_decoded(o) == Some(data),
        Encoding::Identity => out is None,
    }
}

/// Encodes bytes; nothing comes of it where there is no encoder.
pub fn encode(enc: Encoding, data: &[u8], brotli_quality: u32) -> (r: Option<Vec<u8>>)
    requires
        brotli_quality <= 11,
    ensures
        may_encode(enc, data@, brotli_quality as nat, bytes_option(r)),
{
    match enc {
        Encoding::Gzip => gzip(data),
        Encoding::Brotli => brotli_encode(data, brotli_quality),
        Encoding::Identity => None,
    }
}

// ---------------------------------------------------------------------------
// Replies
// ---------------------------------------------------------------------------

/// The name under which an encoding is announced.
pub open spec fn coding_name(enc: Encoding) -> Option<Seq<char>> {
    match enc {
        Encoding::Gzip => Some("gzip"@),
        Encoding::Brotli => Some("br"@),
        Encoding::Identity => None,
    }
}

/// The body that is sent for `bytes` when an encoder gave `out`, and the name
/// of its encoding: the shorter of the two.
pub open spec fn packaged(enc: Encoding, bytes: Seq<u8>, out: Option<Seq<u8>>) -> (
    Seq<u8>,
    Option<Seq<char>>,
) {
    match out {
        Some(o) => if enc != Encoding::Identity && o.len() < bytes.len() {
            (o, coding_name(enc))
        } else {
            (bytes, None)
        },
        None => (bytes, None),
    }
}

/// Whether `out` may come of encoding `bytes`, which are encoded only where
/// that is worth it.
pub open spec fn outcome(
    enc: Encoding,
    bytes: Seq<u8>,
    worth: bool,
    brotli_quality: nat,
    out: Option<Seq<u8>>,
) -> bool {
    if worth {
        may_encode(enc, bytes, brotli_quality, out)
    } else {
        out is None
    }
}

/// The content type and the bytes of a payload that is there as a whole, and
/// whether they are worth encoding.
pub open spec fn buffered<S, U>(p: ReplyView<S, U>, min_size: nat) -> Option<
    (Seq<char>, Seq<u8>, bool),
> {
    match p {
        ReplyView::Json(tree) => Some(
            ("application/json"@, json_text(tree), json_text(tree).len() >= min_size),
        ),
        ReplyView::Bytes { content_type, data } => Some(
            (content_type, data, data.len() >= min_size && is_textual(media_type(content_type))),
        ),
        _ => None,
    }
}

/// Whether `r`, announced under `name`, may come of compressing a payload. A
/// payload that is not there as a whole stays as it is, and so does every
/// payload where there is nothing to encode with.
pub open spec fn payload_compressed<S, U>(
    p: ReplyView<S, U>,
    enc: Encoding,
    layer: CompressionView,
    r: ReplyView<S, U>,
    name: Option<Seq<char>>,
) -> bool {
    match buffered(p, layer.min_size) {
        Some((content_type, bytes, worth)) if enc != Encoding::Identity => bytes_compressed(
            enc,
            content_type,
            bytes,
            worth,
            layer.brotli_quality,
            r,
            name,
        ),
        _ => r == p && name is None,
    }
}

/// Whether `r`, announced under `name`, may come of compressing bytes.
pub open spec fn bytes_compressed<S, U>(
    enc: Encoding,
    content_type: Seq<char>,
    bytes: Seq<u8>,
    worth: bool,
    brotli_quality: nat,
    r: ReplyView<S, U>,
    name: Option<Seq<char>>,
) -> bool {
    exists|out: Option<Seq<u8>>|
        #[trigger] outcome(enc, bytes, worth, brotli_quality, out) && r == (ReplyView::<
            S,
            U,
        >::Bytes { content_type, data: packaged(enc, bytes, out).0 }) && name == packaged(enc, bytes, out).1
}

/// Whether headers forbid to change the payload.
pub open spec fn forbids_transform(headers: Map<Seq<char>, Seq<char>>) -> bool {
    exists|k: Seq<char>| #[trigger] is_no_transform(headers, k)
}

/// Whether a header is a `Cache-Control` with the directive `no-transform`.
pub open spec fn is_no_transform(headers: Map<Seq<char>, Seq<char>>, k: Seq<char>) -> bool {
    headers.contains_key(k) && lower(k) == "cache-control"@ && has_item(
        headers[k],
        "no-transform"@,
    )
}

/// Whether `item` is one of the items of a list with commas, whatever the
/// case.
pub open spec fn has_item(list: Seq<char>, item: Seq<char>) -> bool {
    exists|i: int|
        0 <= i < split(list, ',').len() && lower(trim(#[trigger] split(list, ',')[i])) == item
}

/// Whether headers announce an encoding.
pub open spec fn announces_encoding(headers: Map<Seq<char>, Seq<char>>) -> bool {
    exists|k: Seq<char>| #[trigger] headers.contains_key(k) && lower(k) == "content-encoding"@
}

/// The headers with an encoding announced, if there is one.
pub open spec fn announced(
    headers: Map<Seq<char>, Seq<char>>,
    name: Option<Seq<char>>,
) -> Map<Seq<char>, Seq<char>> {
    match name {
        Some(n) => headers.insert("content-encoding"@, n),
        None => headers,
    }
}

/// Whether `r` may come of compressing a reply.
pub open spec fn reply_compressed<S, U>(
    data: ReplyView<S, U>,
    enc: Encoding,
    layer: CompressionView,
    r: ReplyView<S, U>,
) -> bool {
    match data {
        ReplyView::Rich(spec) => if forbids_transform(spec.headers) || enc == Encoding::Identity
            || announces_encoding(spec.headers) {
            r == data
        } else {
            exists|p: ReplyView<S, U>, name: Option<Seq<char>>|
                #[trigger] payload_compressed(spec.payload, enc, layer, p, name) && r
                    == ReplyView::<S, U>::Rich(
                    Box::new(
                        SpecView {
                            payload: p,
                            status: spec.status,
                            headers: announced(spec.headers, name),
                        },
                    ),
                )
        },
        _ => if enc == Encoding::Identity {
            r == data
        } else {
            exists|p: ReplyView<S, U>, name: Option<Seq<char>>|
                #[trigger] payload_compressed(data, enc, layer, p, name) && r == match name {
                    Some(n) => ReplyView::<S, U>::Rich(
                        Box::new(
                            SpecView {
                                payload: p,
                                status: None,
                                headers: announced(Map::empty(), name),
                            },
                        ),
                    ),
                    None => p,
                }
        },
    }
}

/// Puts a body into a reply: the encoded one where it is shorter.
pub fn package<S, U>(
    content_type: String,
    bytes: Vec<u8>,
    enc: Encoding,
    encoded: Option<Vec<u8>>,
) -> (r: (ReplyData<S, U>, Option<&'static str>))
    ensures
        r.0@ == (ReplyView::<S, U>::Bytes {
            content_type: content_type@,
            data: packaged(enc, bytes@, bytes_option(encoded)).0,
        }),
        str_option(r.1) == packaged(enc, bytes@, bytes_option(encoded)).1,
        header_total(r.0) == 1,
{
    let name = match enc {
        Encoding::Gzip => "gzip",
        Encoding::Brotli => "br",
        Encoding::Identity => {
            return (ReplyData::Bytes { content_type, data: bytes }, None);
        },
    };
    match encoded {
        Some(out) => if out.len() < bytes.len() {
            (ReplyData::Bytes { content_type, data: out }, Some(name))
        } else {
            (ReplyData::Bytes { content_type, data: bytes }, None)
        },
        None => (ReplyData::Bytes { content_type, data: bytes }, None),
    }
}

/// A policy of compression.
#[derive(Clone, Copy, Debug)]
pub struct CompressionLayer {
    min_size: usize,
    prefer_brotli: bool,
    brotli_quality: u32,
}

/// What a policy of compression says.
pub struct CompressionView {
    pub min_size: nat,
    pub prefer_brotli: bool,
    pub brotli_quality: nat,
}

impl View for CompressionLayer {
    type V = CompressionView;

    closed spec fn view(&self) -> CompressionView {
        CompressionView {
            min_size: self.min_size as nat,
            prefer_brotli: self.prefer_brotli,
            brotli_quality: self.brotli_quality as nat,
        }
    }
}

impl Default for CompressionLayer {
    fn default() -> (r: Self)
        ensures
            r@ == (CompressionView { min_size: 1024, prefer_brotli: true, brotli_quality: 4 }),
    {
        Self::new()
    }
}

impl CompressionLayer {
    #[verifier::type_invariant]
    spec fn quality_in_range(self) -> bool {
        self.brotli_quality <= 11
    }

    /// Bodies from 1 KiB on, brotli before gzip, brotli at quality 4.
    pub fn new() -> (r: Self)
        ensures
            r@ == (CompressionView { min_size: 1024, prefer_brotli: true, brotli_quality: 4 }),
    {
        CompressionLayer { min_size: 1024, prefer_brotli: true, brotli_quality: 4 }
    }

    /// Leaves bodies smaller than `bytes` alone.
    pub fn min_size(self, bytes: usize) -> (r: Self)
        ensures
            r@ == (CompressionView { min_size: bytes as nat, ..self@ }),
    {
        proof {
            use_type_invariant(&self);
        }
        CompressionLayer {
            min_size: bytes,
            prefer_brotli: self.prefer_brotli,
            brotli_quality: self.brotli_quality,
        }
    }

    /// Prefers gzip to brotli.
    pub fn prefer_gzip(self) -> (r: Self)
        ensures
            r@ == (CompressionView { prefer_brotli: false, ..self@ }),
    {
        proof {
            use_type_invariant(&self);
        }
        CompressionLayer {
            min_size: self.min_size,
            prefer_brotli: false,
            brotli_quality: self.brotli_quality,
        }
    }

    /// Sets the quality of brotli; a value above 11 counts as 11.
    pub fn brotli_quality(self, q: u32) -> (r: Self)
        ensures
            r@ == (CompressionView {
                brotli_quality: if q > 11 {
                    11
                } else {
                    q as nat
                },
                ..self@
            }),
    {
        CompressionLayer {
            min_size: self.min_size,
            prefer_brotli: self.prefer_brotli,
            brotli_quality: if q > 11 {
                11
            } else {
                q
            },
        }
    }

    /// Compresses a payload, where that is worth it.
    pub fn compress_payload<S, U>(&self, payload: ReplyData<S, U>, enc: Encoding) -> (r: (
        ReplyData<S, U>,
        Option<&'static str>,
    ))
        ensures
            payload_compressed(payload@, enc, self@, r.0@, str_option(r.1)),
            types_are_values(payload@) ==> types_are_values(r.0@),
            header_total(r.0) == header_total(payload),
    {
        proof {
            use_type_invariant(self);
        }
        let ghost view = payload@;
        if let Encoding::Identity = enc {
            return (payload, None);
        }
        match payload {
            ReplyData::Json(value) => {
                let bytes = json_to_vec(&value);
                let worth = bytes.len() >= self.min_size;
                assert(buffered(view, self@.min_size) == Some(
                    ("application/json"@, bytes@, worth),
                ));
                let encoded = if worth {
                    encode(enc, &bytes, self.brotli_quality)
                } else {
                    None
                };
                proof {
                    assert(outcome(
                        enc,
                        bytes@,
                        worth,
                        self@.brotli_quality,
                        bytes_option(encoded),
                    ));
                    reveal_strlit("application/json");
                    crate::finalizer::lemma_ascii_value("application/json"@);
                }
                let r = package("application/json".to_owned(), bytes, enc, encoded);
                assert(bytes_compressed(
                    enc,
                    "application/json"@,
                    bytes@,
                    worth,
                    self@.brotli_quality,
                    r.0@,
                    str_option(r.1),
                ));
                r
            },
            ReplyData::Bytes { content_type, data } => {
                let worth = data.len() >= self.min_size && is_compressible(content_type.as_str());
                assert(buffered(view, self@.min_size) == Some((content_type@, data@, worth)));
                let encoded = if worth {
                    encode(enc, &data, self.brotli_quality)
                } else {
                    None
                };
                assert(outcome(
                    enc,
                    data@,
                    worth,
                    self@.brotli_quality,
                    bytes_option(encoded),
                ));
                let r = package(content_type, data, enc, encoded);
                assert(bytes_compressed(
                    enc,
                    content_type@,
                    data@,
                    worth,
                    self@.brotli_quality,
                    r.0@,
                    str_option(r.1),
                ));
                r
            },
            other => {
                assert(buffered(view, self@.min_size) is None);
                (other, None)
            },
        }
    }

    /// Compresses a reply, where the client asks for it and it is worth it.
    /// The reply announces an encoding exactly where its body was encoded.
    pub fn compress_reply<S, U>(&self, data: ReplyData<S, U>, accept_encoding: Option<&str>) -> (r:
        ReplyData<S, U>)
        ensures
            reply_compressed(
                data@,
                negotiated(str_option(accept_encoding), self@.prefer_brotli),
                self@,
                r@,
            ),
            types_are_values(data@) ==> types_are_values(r@),
            header_total(r) <= header_total(data) + 1,
    {
        let enc = negotiate(accept_encoding, self.prefer_brotli);
        match data {
            ReplyData::Rich(spec) => {
                if enc == Encoding::Identity || no_transform(&spec.headers)
                    || has_content_encoding(&spec.headers) {
                    return ReplyData::Rich(spec);
                }
                let ghost view = spec@;
                let ReplySpec { payload, status, headers } = *spec;
                let (payload, name) = self.compress_payload(payload, enc);
                let mut headers = headers;
                let ghost before = single(headers@);
                if let Some(n) = name {
                    headers.insert("content-encoding".to_owned(), n.to_owned());
                }
                assert(single(headers@) =~= announced(before, str_option(name)));
                let r = ReplyData::Rich(Box::new(ReplySpec { payload, status, headers }));
                assert(payload_compressed(
                    view.payload,
                    enc,
                    self@,
                    payload@,
                    str_option(name),
                ));
                r
            },
            other => {
                if enc == Encoding::Identity {
                    return other;
                }
                let ghost view = other@;
                let (payload, name) = self.compress_payload(other, enc);
                let ghost p = payload@;
                assert(payload_compressed(view, enc, self@, p, str_option(name)));
                match name {
                    Some(n) => {
                        let mut headers: StrMap<String> = StrMap::new();
                        headers.insert("content-encoding".to_owned(), n.to_owned());
                        assert(single(headers@) =~= announced(Map::empty(), Some(n@)));
                        ReplyData::Rich(Box::new(ReplySpec { payload, status: None, headers }))
                    },
                    None => payload,
                }
            },
        }
    }
}

/// Whether `item` is one of the items of a list with commas.
pub fn list_has(list: &str, item: &str) -> (r: bool)
    ensures
        r == has_item(list@, lower(item@)),
{
    let parts = split_str(list, ',');
    let mut i: usize = 0;
    while i < parts.len()
        invariant
            i <= parts@.len(),
            views(parts@) == split(list@, ','),
            forall|j: int|
                0 <= j < i ==> lower(trim(#[trigger] split(list@, ',')[j])) != lower(item@),
        decreases parts.len() - i,
    {
        assert(split(list@, ',')[i as int] == parts@[i as int]@);
        if eq_ignore_case(trim_str(parts[i].as_str()).as_str(), item) {
            return true;
        }
        i = i + 1;
    }
    false
}

fn no_transform(headers: &StrMap<String>) -> (r: bool)
    ensures
        r == forbids_transform(single(headers@)),
{
    let ghost all = single(headers@);
    let names = headers.keys();
    proof {
        reveal_strlit("cache-control");
        reveal_strlit("no-transform");
        assert(lower("cache-control"@) =~= "cache-control"@);
        assert(lower("no-transform"@) =~= "no-transform"@);
    }
    let mut i: usize = 0;
    while i < headers.len()
        invariant
            i <= headers.names().len(),
            all == single(headers@),
            lower("cache-control"@) == "cache-control"@,
            lower("no-transform"@) == "no-transform"@,
            forall|j: int|
                0 <= j < i ==> !is_no_transform(all, #[trigger] headers.names()[j]),
        decreases headers.names().len() - i,
    {
        let (name, value) = headers.entry(i);
        assert(all[name@] == value@);
        if eq_ignore_case(name, "cache-control") && list_has(value.as_str(), "no-transform") {
            assert(is_no_transform(all, name@));
            return true;
        }
        i = i + 1;
    }
    proof {
        assert forall|k: Seq<char>| !#[trigger] is_no_transform(all, k) by {
            if all.contains_key(k) {
                assert(headers@.contains_key(k));
                assert(headers.names()[headers.names().index_of(k)] == k);
            }
        }
    }
    false
}

fn has_content_encoding(headers: &StrMap<String>) -> (r: bool)
    ensures
        r == announces_encoding(single(headers@)),
{
    let ghost all = single(headers@);
    let names = headers.keys();
    proof {
        reveal_strlit("content-encoding");
        assert(lower("content-encoding"@) =~= "content-encoding"@);
    }
    let mut i: usize = 0;
    while i < names.len()
        invariant
            i <= names@.len(),
            all == single(headers@),
            views(names@) == headers.names(),
            lower("content-encoding"@) == "content-encoding"@,
            forall|k: Seq<char>| headers.names().contains(k) <==> #[trigger] headers@.contains_key(k),
            forall|j: int|
                0 <= j < i ==> lower(#[trigger] headers.names()[j]) != "content-encoding"@,
        decreases names.len() - i,
    {
        assert(headers.names()[i as int] == names@[i as int]@);
        if eq_ignore_case(names[i].as_str(), "content-encoding") {
            assert(headers.names().contains(names@[i as int]@));
            assert(all.contains_key(names@[i as int]@));
            return true;
        }
        i = i + 1;
    }
    proof {
        assert forall|k: Seq<char>| #[trigger] all.contains_key(k) implies lower(k)
            != "content-encoding"@ by {
            assert(headers@.contains_key(k));
            assert(headers.names()[headers.names().index_of(k)] == k);
        }
    }
    false
}

/// The headers of a response with `Vary` naming `Accept-Encoding`, where the
/// response announces an encoding.
pub open spec fn vary_tagged(headers: Contents) -> Contents {
    if headers.contains_key("content-encoding"@) {
        headers.insert("vary"@, all_values(headers, "vary"@).push(utf8("Accept-Encoding"@)))
    } else {
        headers
    }
}

/// Tells caches that a response depends on `Accept-Encoding`, where it
/// announces an encoding. A `Vary` that is there stays.
pub fn tag_vary_if_encoded(headers: &mut http::HeaderMap)
    requires
        has_room(header_contents(*old(headers)), 0),
    ensures
        header_contents(*final(headers)) == vary_tagged(header_contents(*old(headers))),
{
    proof {
        reveal_strlit("content-encoding");
        reveal_strlit("vary");
        reveal_strlit("Accept-Encoding");
        assert(lower("content-encoding"@) =~= "content-encoding"@);
        assert(lower("vary"@) =~= "vary"@);
        crate::finalizer::lemma_ascii_value("Accept-Encoding"@);
    }
    if header_get(headers, "content-encoding").is_some() {
        header_append(headers, "vary", "Accept-Encoding".as_bytes());
    }
}

// ---------------------------------------------------------------------------
// Laws
// ---------------------------------------------------------------------------

/// The bytes of a payload that is there as a whole, as they are sent without
/// an encoding.
pub open spec fn plain_body<S, U>(p: ReplyView<S, U>) -> Option<Seq<u8>> {
    match p {
        ReplyView::Json(tree) => Some(json_text(tree)),
        ReplyView::Bytes { content_type, data } => Some(data),
        _ => None,
    }
}

/// What a client reads from a body that is announced under a name.
pub open spec fn read_as(name: Option<Seq<char>>, data: Seq<u8>) -> Option<Seq<u8>> {
    match name {
        None => Some(data),
        Some(n) => if n == "gzip"@ {
            gzip_decoded(data)
        } else if n == "br"@ {
            brotli_decoded(data)
        } else {
            None
        },
    }
}

/// Compression loses nothing: a client that decodes the body under the name
/// that is announced reads the body of the handler.
pub proof fn law_compression_is_lossless<S, U>(
    p: ReplyView<S, U>,
    enc: Encoding,
    layer: CompressionView,
    r: ReplyView<S, U>,
    name: Option<Seq<char>>,
)
    requires
        payload_compressed(p, enc, layer, r, name),
        plain_body(p) is Some,
    ensures
        plain_body(r) is Some,
        read_as(name, plain_body(r)->0) == plain_body(p),
{
    reveal_strlit("gzip");
    reveal_strlit("br");
    assert("gzip"@.len() != "br"@.len());
}

/// A body that is worth encoding is sent gzipped to a client that asks for
/// that, wherever gzip makes it shorter.
pub proof fn law_worthwhile_bodies_are_gzipped<S, U>(
    p: ReplyView<S, U>,
    layer: CompressionView,
    r: ReplyView<S, U>,
    name: Option<Seq<char>>,
)
    requires
        payload_compressed(p, Encoding::Gzip, layer, r, name),
        buffered(p, layer.min_size) matches Some((content_type, bytes, worth)) && worth && gzip_encoded(
            bytes,
        ).len() < bytes.len(),
    ensures
        name == Some("gzip"@),
        buffered(p, layer.min_size) matches Some((content_type, bytes, _)) && r == (ReplyView::<
            S,
            U,
        >::Bytes { content_type, data: gzip_encoded(bytes) }),
{
}

/// A body is encoded only where that makes it shorter, and only from the
/// least size on.
pub proof fn law_encoded_bodies_are_shorter<S, U>(
    p: ReplyView<S, U>,
    enc: Encoding,
    layer: CompressionView,
    r: ReplyView<S, U>,
    name: Option<Seq<char>>,
)
    requires
        payload_compressed(p, enc, layer, r, name),
        name is Some,
    ensures
        plain_body(p) is Some,
        r is Bytes,
        r->data.len() < plain_body(p)->0.len(),
        plain_body(p)->0.len() >= layer.min_size,
{
}

/// No client is sent an encoding to which it gives no weight, nor one to which
/// it gives less weight than to the other.
pub proof fn law_client_weights_decide(header: Seq<char>, prefer_brotli: bool)
    ensures
        ({
            let tokens = split(header, ',');
            let br = offered_weight(tokens, "br"@);
            let gzip = offered_weight(tokens, "gzip"@);
            match negotiated(Some(header), prefer_brotli) {
                Encoding::Brotli => br > 0 && br >= gzip && (br == gzip ==> prefer_brotli),
                Encoding::Gzip => gzip > 0 && gzip >= br && (br == gzip ==> !prefer_brotli),
                Encoding::Identity => br == 0 && gzip == 0,
            }
        }),
{
}

/// A reply that forbids transformation, or that announces an encoding already,
/// leaves as it came.
pub proof fn law_untouched_replies<S, U>(
    spec: SpecView<S, U>,
    enc: Encoding,
    layer: CompressionView,
    r: ReplyView<S, U>,
)
    requires
        forbids_transform(spec.headers) || announces_encoding(spec.headers),
        reply_compressed(ReplyView::Rich(Box::new(spec)), enc, layer, r),
    ensures
        r == ReplyView::<S, U>::Rich(Box::new(spec)),
{
}

/// Compression changes nothing but how the payload is encoded: a reply with a
/// status and headers keeps its status and every header, and one more header
/// announces the encoding where there is one; a reply without any gets that
/// header alone, and no status.
pub proof fn law_only_the_encoding_changes<S, U>(
    data: ReplyView<S, U>,
    enc: Encoding,
    layer: CompressionView,
    r: ReplyView<S, U>,
)
    requires
        reply_compressed(data, enc, layer, r),
    ensures
        data matches ReplyView::Rich(before) ==> {
            &&& r matches ReplyView::Rich(after)
            &&& after.status == before.status
            &&& forall|k: Seq<char>|
                k != "content-encoding"@ ==> (#[trigger] after.headers.contains_key(k)
                    <==> before.headers.contains_key(k))
            &&& forall|k: Seq<char>| #[trigger]
                before.headers.contains_key(k) && k != "content-encoding"@ ==> after.headers[k]
                    == before.headers[k]
            &&& before.headers.contains_key("content-encoding"@) ==> r == data
        },
        !(data is Rich) ==> match r {
            ReplyView::Rich(after) => after.status is None && after.headers.dom() == set![
                "content-encoding"@,
            ],
            ReplyView::Bytes { .. } => data is Bytes || data is Json,
            _ => r == data,
        },
{
    reveal_strlit("content-encoding");
    if let ReplyView::Rich(before) = data {
        assert(lower("content-encoding"@) =~= "content-encoding"@);
        if before.headers.contains_key("content-encoding"@) {
            assert(announces_encoding(before.headers));
        }
    } else if enc != Encoding::Identity {
        let (p, name) = choose|p: ReplyView<S, U>, name: Option<Seq<char>>|
            #[trigger] payload_compressed(data, enc, layer, p, name) && r == match name {
                Some(n) => ReplyView::<S, U>::Rich(
                    Box::new(
                        SpecView {
                            payload: p,
                            status: None,
                            headers: announced(Map::empty(), name),
                        },
                    ),
                ),
                None => p,
            };
        if name is Some {
            assert(announced(Map::empty(), name).dom() =~= set!["content-encoding"@]);
        }
    }
}

/// The encoding under which headers announce a body.
pub open spec fn announced_as(headers: Map<Seq<char>, Seq<char>>) -> Option<Seq<char>> {
    if headers.contains_key("content-encoding"@) {
        Some(headers["content-encoding"@])
    } else {
        None
    }
}

/// A client that decodes the body of a reply as it is announced reads the body
/// that the handler gave, of the same content type. A payload that is not there
/// as a whole is not touched.
pub proof fn law_replies_read_back<S, U>(
    data: ReplyView<S, U>,
    enc: Encoding,
    layer: CompressionView,
    r: ReplyView<S, U>,
)
    requires
        reply_compressed(data, enc, layer, r),
        data matches ReplyView::Rich(spec) ==> forall|k: Seq<char>| #[trigger]
            spec.headers.contains_key(k) ==> lower(k) != "content-encoding"@,
    ensures
        ({
            let given = payload_of(data);
            let (sent, name) = match r {
                ReplyView::Rich(spec) => (spec.payload, announced_as(spec.headers)),
                _ => (r, None),
            };
            match given {
                ReplyView::Json(tree) => {
                    ||| sent == given && name is None
                    ||| sent matches ReplyView::Bytes { content_type, data: body } && content_type
                        == "application/json"@ && read_as(name, body) == Some(json_text(tree))
                },
                ReplyView::Bytes { content_type: t, data: bytes } => sent matches ReplyView::Bytes {
                    content_type,
                    data: body,
                } && content_type == t && read_as(name, body) == Some(bytes),
                _ => !(given is Rich) ==> sent == given && name is None,
            }
        }),
{
    reveal_strlit("gzip");
    reveal_strlit("br");
    reveal_strlit("content-encoding");
    assert("gzip"@.len() != "br"@.len());
    assert(lower("content-encoding"@) =~= "content-encoding"@);
    match data {
        ReplyView::Rich(spec) => {
            assert(!announces_encoding(spec.headers));
            if !(forbids_transform(spec.headers) || enc == Encoding::Identity) {
                let (p, name) = choose|p: ReplyView<S, U>, name: Option<Seq<char>>|
                    #[trigger] payload_compressed(spec.payload, enc, layer, p, name) && r
                        == ReplyView::<S, U>::Rich(
                        Box::new(
                            SpecView {
                                payload: p,
                                status: spec.status,
                                headers: announced(spec.headers, name),
                            },
                        ),
                    );
                assert(announced_as(announced(spec.headers, name)) == name);
            }
        },
        _ => {
            if enc != Encoding::Identity {
                let (p, name) = choose|p: ReplyView<S, U>, name: Option<Seq<char>>|
                    #[trigger] payload_compressed(data, enc, layer, p, name) && r == match name {
                        Some(n) => ReplyView::<S, U>::Rich(
                            Box::new(
                                SpecView {
                                    payload: p,
                                    status: None,
                                    headers: announced(Map::empty(), name),
                                },
                            ),
                        ),
                        None => p,
                    };
                assert(announced_as(announced(Map::empty(), name)) == name);
            }
        },
    }
}

/// A body of text that has the least size is sent in the encoding that was
/// agreed on, wherever that makes it shorter, and announced so; one that is
/// shorter than the least size, or no text, is sent as it is.
pub proof fn law_bodies_worth_encoding<S, U>(
    content_type: Seq<char>,
    bytes: Seq<u8>,
    enc: Encoding,
    layer: CompressionView,
    r: ReplyView<S, U>,
    name: Option<Seq<char>>,
)
    requires
        payload_compressed(ReplyView::Bytes { content_type, data: bytes }, enc, layer, r, name),
    ensures
        bytes.len() < layer.min_size || !is_textual(media_type(content_type)) || enc
            == Encoding::Identity ==> r == (ReplyView::<S, U>::Bytes { content_type, data: bytes })
            && name is None,
        bytes.len() >= layer.min_size && is_textual(media_type(content_type)) && enc
            == Encoding::Gzip && gzip_encoded(bytes).len() < bytes.len() ==> r == (ReplyView::<
            S,
            U,
        >::Bytes { content_type, data: gzip_encoded(bytes) }) && name == Some("gzip"@),
        bytes.len() >= layer.min_size && is_textual(media_type(content_type)) && enc
            == Encoding::Brotli ==> exists|out: Seq<u8>| #[trigger]
            brotli_gives(bytes, layer.brotli_quality, out) && if out.len() < bytes.len() {
                r == (ReplyView::<S, U>::Bytes { content_type, data: out }) && name == Some("br"@)
            } else {
                r == (ReplyView::<S, U>::Bytes { content_type, data: bytes }) && name is None
            },
{
    if enc == Encoding::Brotli && bytes.len() >= layer.min_size && is_textual(
        media_type(content_type),
    ) {
        let out = choose|out: Option<Seq<u8>>|
            #[trigger] outcome(enc, bytes, true, layer.brotli_quality, out) && r == (ReplyView::<
                S,
                U,
            >::Bytes { content_type, data: packaged(enc, bytes, out).0 }) && name == packaged(
                enc,
                bytes,
                out,
            ).1;
        assert(brotli_gives(bytes, layer.brotli_quality, out->0));
    }
}

/// JSON is worth encoding from the least size on, as a body of its text is.
pub proof fn law_json_is_worth_encoding<S, U>(
    tree: crate::json::JsonTree,
    layer: CompressionView,
    r: ReplyView<S, U>,
    name: Option<Seq<char>>,
)
    requires
        payload_compressed(ReplyView::Json(tree), Encoding::Gzip, layer, r, name),
    ensures
        r == (ReplyView::<S, U>::Bytes {
            content_type: "application/json"@,
            data: if json_text(tree).len() >= layer.min_size && gzip_encoded(json_text(tree)).len()
                < json_text(tree).len() {
                gzip_encoded(json_text(tree))
            } else {
                json_text(tree)
            },
        }),
        name == if json_text(tree).len() >= layer.min_size && gzip_encoded(json_text(tree)).len()
            < json_text(tree).len() {
            Some("gzip"@)
        } else {
            None
        },
{
}

/// What is text: every `text/` type, every type that ends in `+json` or `+xml`,
/// and no image, sound, film or font besides.
pub proof fn law_what_is_text(main: Seq<char>, sub: Seq<char>)
    ensures
        is_textual("text/"@ + sub),
        is_textual(main + "+json"@),
        is_textual(main + "+xml"@),
        is_textual("application/json"@),
        is_textual("application/javascript"@),
        is_textual("application/xml"@),
        is_textual("application/wasm"@),
        forall|t: Seq<char>|
            (starts_with(t, "image/"@) || starts_with(t, "audio/"@) || starts_with(t, "video/"@)
                || starts_with(t, "font/"@)) && !ends_with(t, "+xml"@) && !ends_with(t, "+json"@)
                ==> !#[trigger] is_textual(t),
        !is_textual("application/octet-stream"@),
        !is_textual("application/zip"@),
        !is_textual("application/gzip"@),
        !is_textual("application/pdf"@),
{
    reveal_strlit("text/");
    reveal_strlit("image/");
    reveal_strlit("audio/");
    reveal_strlit("video/");
    reveal_strlit("font/");
    reveal_strlit("+json");
    reveal_strlit("+xml");
    reveal_strlit("application/json");
    reveal_strlit("application/javascript");
    reveal_strlit("application/manifest+json");
    reveal_strlit("application/xml");
    reveal_strlit("application/xhtml+xml");
    reveal_strlit("application/rss+xml");
    reveal_strlit("application/atom+xml");
    reveal_strlit("application/wasm");
    reveal_strlit("image/svg+xml");
    reveal_strlit("application/octet-stream");
    reveal_strlit("application/zip");
    reveal_strlit("application/gzip");
    reveal_strlit("application/pdf");
    crate::text::law_beginnings_and_ends("text/"@, sub, sub);
    crate::text::law_beginnings_and_ends("+json"@, main, main);
    crate::text::law_beginnings_and_ends("+xml"@, main, main);
    let svg = "image/svg+xml"@;
    assert(svg.skip(9) =~= "+xml"@);
    assert("application/json"@[0] == 'a' && "application/javascript"@[0] == 'a'
        && "application/manifest+json"@[0] == 'a' && "application/xml"@[0] == 'a'
        && "application/xhtml+xml"@[0] == 'a' && "application/rss+xml"@[0] == 'a'
        && "application/atom+xml"@[0] == 'a' && "application/wasm"@[0] == 'a');
    assert("application/json"@[1] == 'p' && "application/javascript"@[1] == 'p'
        && "application/manifest+json"@[1] == 'p' && "application/xml"@[1] == 'p'
        && "application/xhtml+xml"@[1] == 'p' && "application/rss+xml"@[1] == 'p'
        && "application/atom+xml"@[1] == 'p' && "application/wasm"@[1] == 'p');
    assert forall|t: Seq<char>|
        (starts_with(t, "image/"@) || starts_with(t, "audio/"@) || starts_with(t, "video/"@)
            || starts_with(t, "font/"@)) && !ends_with(t, "+xml"@) && !ends_with(t, "+json"@) implies !#[trigger] is_textual(
        t,
    ) by {
        assert(starts_with(t, "image/"@) ==> t.take(6)[0] == t[0]);
        assert(starts_with(t, "audio/"@) ==> t.take(6)[0] == t[0] && t.take(6)[1] == t[1]);
        assert(starts_with(t, "video/"@) ==> t.take(6)[0] == t[0]);
        assert(starts_with(t, "font/"@) ==> t.take(5)[0] == t[0]);
        assert(starts_with(t, "text/"@) ==> t.take(5)[0] == t[0]);
    }
    lemma_no_text("application/octet-stream"@);
    lemma_no_text("application/zip"@);
    lemma_no_text("application/gzip"@);
    lemma_no_text("application/pdf"@);
    assert("application/octet-stream"@.len() == 24 && "application/zip"@.len() == 15
        && "application/gzip"@.len() == 16 && "application/pdf"@.len() == 15);
    assert("application/zip"@[12] == 'z' && "application/gzip"@[12] == 'g' && "application/pdf"@[12]
        == 'p');
}

proof fn lemma_no_text(t: Seq<char>)
    requires
        t.len() > 12,
        t[0] == 'a',
        t[t.len() - 1] != 'n',
        t[t.len() - 1] != 'l',
    ensures
        !starts_with(t, "text/"@),
        !ends_with(t, "+json"@),
        !ends_with(t, "+xml"@),
{
    reveal_strlit("text/");
    reveal_strlit("+json");
    reveal_strlit("+xml");
    if starts_with(t, "text/"@) {
        assert(t.take(5)[0] == t[0]);
    }
    if ends_with(t, "+json"@) {
        assert(t.skip(t.len() - 5)[4] == t[t.len() - 1]);
    }
    if ends_with(t, "+xml"@) {
        assert(t.skip(t.len() - 4)[3] == t[t.len() - 1]);
    }
}

/// The parameters of a content type, and blanks around the type, do not change
/// what it is, and nor does its case.
pub proof fn law_parameters_change_no_type(
    a: Seq<char>,
    t: Seq<char>,
    b: Seq<char>,
    params: Seq<char>,
)
    requires
        crate::text::all_blank(a),
        crate::text::all_blank(b),
        crate::text::visible_ends(t),
        !t.contains(';'),
    ensures
        media_type(a + t + b) == lower(t),
        media_type((a + t + b).push(';') + params) == lower(t),
{
    let whole = a + t + b;
    assert(!whole.contains(';')) by {
        if whole.contains(';') {
            let k = whole.index_of(';');
            if k < a.len() {
                assert(whole[k] == a[k]);
            } else if k < a.len() + t.len() {
                assert(whole[k] == t[k - a.len()]);
            } else {
                assert(whole[k] == b[k - a.len() - t.len()]);
            }
        }
    }
    crate::text::law_padding_is_trimmed(a, t, b);
    crate::text::lemma_split_without(whole, ';');
    crate::text::lemma_split_concat(whole, params, ';');
}

/// A token gives its encoding the weight that follows `q=`, and the weight one
/// where nothing follows or what follows is no weight. Case does not count.
pub proof fn law_tokens_give_weights(name: Seq<char>, weight: Seq<char>)
    requires
        crate::text::visible_ends(name),
        crate::text::visible_ends(weight),
        weight.len() > 0,
        !name.contains(';'),
        !weight.contains(';'),
    ensures
        token_name(name) == lower(name),
        token_weight(name) == ONE,
        token_name(name + seq![';', 'q', '='] + weight) == lower(name),
        token_name(name + seq![';', ' ', 'Q', '='] + weight) == lower(name),
        token_weight(name + seq![';', 'q', '='] + weight) == match quality(weight) {
            Some(w) => w,
            None => ONE as nat,
        },
        token_weight(name + seq![';', ' ', 'Q', '='] + weight) == match quality(weight) {
            Some(w) => w,
            None => ONE as nat,
        },
{
    let none = Seq::<char>::empty();
    crate::text::law_padding_is_trimmed(none, name, none);
    assert(none + name + none =~= name);
    crate::text::lemma_split_without(name, ';');
    assert(split(name, ';').skip(1) =~= Seq::<Seq<char>>::empty());
    lemma_weighed(name, seq!['q', '='], none, weight);
    lemma_weighed(name, seq!['Q', '='], seq![' '], weight);
    assert(name.push(';') + (none + (seq!['q', '='] + weight)) =~= name + seq![';', 'q', '=']
        + weight);
    assert(name.push(';') + (seq![' '] + (seq!['Q', '='] + weight)) =~= name + seq![
        ';',
        ' ',
        'Q',
        '=',
    ] + weight);
}

proof fn lemma_weighed(name: Seq<char>, key: Seq<char>, pad: Seq<char>, weight: Seq<char>)
    requires
        crate::text::visible_ends(name),
        crate::text::visible_ends(weight),
        weight.len() > 0,
        !name.contains(';'),
        !weight.contains(';'),
        key == seq!['q', '='] || key == seq!['Q', '='],
        crate::text::all_blank(pad),
    ensures
        token_name(name.push(';') + (pad + (key + weight))) == lower(name),
        token_weight(name.push(';') + (pad + (key + weight))) == match quality(weight) {
            Some(w) => w,
            None => ONE as nat,
        },
{
    reveal_strlit("q=");
    reveal_strlit("Q=");
    assert("q="@ =~= seq!['q', '=']);
    assert("Q="@ =~= seq!['Q', '=']);
    let none = Seq::<char>::empty();
    let inner = key + weight;
    let param = pad + inner;
    assert(!param.contains(';')) by {
        if param.contains(';') {
            let k = param.index_of(';');
            if k < pad.len() {
                assert(param[k] == pad[k]);
            } else if k < pad.len() + 2 {
                assert(param[k] == key[k - pad.len()]);
            } else {
                assert(param[k] == weight[k - pad.len() - 2]);
            }
        }
    }
    crate::text::lemma_split_without(name, ';');
    crate::text::lemma_split_without(param, ';');
    crate::text::lemma_split_concat(name, param, ';');
    let params = split(name.push(';') + param, ';').skip(1);
    assert(params =~= seq![param]);
    crate::text::law_padding_is_trimmed(none, name, none);
    assert(none + name + none =~= name);
    crate::text::law_padding_is_trimmed(pad, inner, none);
    assert(pad + inner + none =~= param);
    assert(inner.take(2) =~= key);
    assert(inner.skip(2) =~= weight);
    reveal_with_fuel(params_weight, 2);
}

/// Of several tokens with one name the last gives the weight; where no token
/// has the name of an encoding the last `*` does, and without one the encoding
/// has no weight at all.
pub proof fn law_the_last_token_counts(tokens: Seq<Seq<char>>, name: Seq<char>)
    ensures
        forall|k: int|
            0 <= k < tokens.len() && token_name(#[trigger] tokens[k]) == name && (forall|j: int|
                k < j < tokens.len() ==> token_name(#[trigger] tokens[j]) != name)
                ==> offered_weight(tokens, name) == token_weight(tokens[k]),
        (forall|j: int| 0 <= j < tokens.len() ==> token_name(#[trigger] tokens[j]) != name) ==> {
            &&& forall|k: int|
                0 <= k < tokens.len() && token_name(#[trigger] tokens[k]) == seq!['*'] && (forall|
                    j: int,
                |
                    k < j < tokens.len() ==> token_name(#[trigger] tokens[j]) != seq!['*'])
                    ==> offered_weight(tokens, name) == token_weight(tokens[k])
            &&& (forall|j: int|
                0 <= j < tokens.len() ==> token_name(#[trigger] tokens[j]) != seq!['*'])
                ==> offered_weight(tokens, name) == 0
        },
{
    reveal_strlit("*");
    assert("*"@ =~= seq!['*']);
    lemma_last_named(tokens, name);
    lemma_last_named(tokens, seq!['*']);
}

proof fn lemma_last_named(tokens: Seq<Seq<char>>, name: Seq<char>)
    ensures
        match named_weight(tokens, name) {
            Some(w) => exists|k: int|
                0 <= k < tokens.len() && token_name(#[trigger] tokens[k]) == name && w
                    == token_weight(tokens[k]) && forall|j: int|
                    k < j < tokens.len() ==> token_name(#[trigger] tokens[j]) != name,
            None => forall|j: int|
                0 <= j < tokens.len() ==> token_name(#[trigger] tokens[j]) != name,
        },
    decreases tokens.len(),
{
    if tokens.len() > 0 {
        let n = tokens.len() - 1;
        let front = tokens.drop_last();
        if token_name(tokens.last()) == name {
            assert(token_name(tokens[n]) == name);
        } else {
            lemma_last_named(front, name);
            if named_weight(front, name) is Some {
                let k = choose|k: int|
                    0 <= k < front.len() && token_name(#[trigger] front[k]) == name
                        && named_weight(front, name)->0 == token_weight(front[k]) && forall|j: int|
                        k < j < front.len() ==> token_name(#[trigger] front[j]) != name;
                assert(tokens[k] == front[k]);
                assert forall|j: int| k < j < tokens.len() implies token_name(#[trigger] tokens[j])
                    != name by {
                    if j < n {
                        assert(front[j] == tokens[j]);
                    }
                }
            } else {
                assert forall|j: int| 0 <= j < tokens.len() implies token_name(#[trigger] tokens[j])
                    != name by {
                    if j < n {
                        assert(front[j] == tokens[j]);
                    }
                }
            }
        }
    }
}

/// An encoding is chosen by its weight alone: the heavier of the two wins,
/// neither where both have none, and the preference settles a tie. A client
/// that sends no header is sent no encoding.
pub proof fn law_the_heavier_encoding_wins(header: Seq<char>, prefer_brotli: bool)
    ensures
        negotiated(None, prefer_brotli) == Encoding::Identity,
        ({
            let tokens = split(header, ',');
            let br = offered_weight(tokens, seq!['b', 'r']);
            let gzip = offered_weight(tokens, seq!['g', 'z', 'i', 'p']);
            &&& br > gzip ==> negotiated(Some(header), prefer_brotli) == Encoding::Brotli
            &&& gzip > br ==> negotiated(Some(header), prefer_brotli) == Encoding::Gzip
            &&& br == gzip && br > 0 ==> negotiated(Some(header), true) == Encoding::Brotli
                && negotiated(Some(header), false) == Encoding::Gzip
            &&& br == 0 && gzip == 0 ==> negotiated(Some(header), prefer_brotli)
                == Encoding::Identity
        }),
{
    reveal_strlit("br");
    reveal_strlit("gzip");
    assert("br"@ =~= seq!['b', 'r']);
    assert("gzip"@ =~= seq!['g', 'z', 'i', 'p']);
}

/// An item is in a list where one of the pieces between commas is it, whatever
/// its case and the blanks around it.
pub proof fn law_items_of_a_list(
    a: Seq<char>,
    b: Seq<char>,
    piece: Seq<char>,
    item: Seq<char>,
)
    ensures
        has_item(a.push(',') + b, item) <==> has_item(a, item) || has_item(b, item),
        !piece.contains(',') ==> (has_item(piece, item) <==> lower(trim(piece)) == item),
{
    crate::text::lemma_split_concat(a, b, ',');
    let x = split(a, ',');
    let y = split(b, ',');
    let all = split(a.push(',') + b, ',');
    if has_item(a, item) {
        let i = choose|i: int| 0 <= i < x.len() && lower(trim(#[trigger] x[i])) == item;
        assert(all[i] == x[i]);
    }
    if has_item(b, item) {
        let i = choose|i: int| 0 <= i < y.len() && lower(trim(#[trigger] y[i])) == item;
        assert(all[i + x.len()] == y[i]);
    }
    if has_item(a.push(',') + b, item) {
        let i = choose|i: int| 0 <= i < all.len() && lower(trim(#[trigger] all[i])) == item;
        if i < x.len() {
            assert(all[i] == x[i]);
        } else {
            assert(all[i] == y[i - x.len()]);
        }
    }
    if !piece.contains(',') {
        crate::text::lemma_split_without(piece, ',');
        assert(split(piece, ',')[0] == piece);
    }
}

/// A reply whose `Cache-Control` says `no-transform`, or that names an encoding
/// already, is not touched, in whatever case its headers are written.
pub proof fn law_replies_that_refuse<S, U>(
    spec: SpecView<S, U>,
    k: Seq<char>,
    enc: Encoding,
    layer: CompressionView,
    r: ReplyView<S, U>,
)
    requires
        reply_compressed(ReplyView::Rich(Box::new(spec)), enc, layer, r),
        spec.headers.contains_key(k),
        lower(k) == lower("Content-Encoding"@) || (lower(k) == lower("Cache-Control"@) && has_item(
            spec.headers[k],
            lower("No-Transform"@),
        )),
    ensures
        r == ReplyView::<S, U>::Rich(Box::new(spec)),
{
    reveal_strlit("Content-Encoding");
    reveal_strlit("content-encoding");
    reveal_strlit("Cache-Control");
    reveal_strlit("cache-control");
    reveal_strlit("No-Transform");
    reveal_strlit("no-transform");
    assert(lower("Content-Encoding"@) =~= "content-encoding"@);
    assert(lower("Cache-Control"@) =~= "cache-control"@);
    assert(lower("No-Transform"@) =~= "no-transform"@);
    assert(lower(k) == "cache-control"@ ==> is_no_transform(spec.headers, k));
}

/// `Vary` gains `Accept-Encoding` exactly where a body is encoded, behind the
/// values that it has; no other header changes.
pub proof fn law_vary_names_accept_encoding(headers: Contents, k: Seq<char>)
    ensures
        !headers.contains_key("content-encoding"@) ==> vary_tagged(headers) == headers,
        headers.contains_key("content-encoding"@) ==> {
            &&& vary_tagged(headers).contains_key("vary"@)
            &&& vary_tagged(headers)["vary"@].drop_last() == all_values(headers, "vary"@)
            &&& vary_tagged(headers)["vary"@].len() > 0
            &&& vary_tagged(headers)["vary"@].last() == utf8("Accept-Encoding"@)
        },
        k != "vary"@ ==> vary_tagged(headers).contains_key(k) == headers.contains_key(k) && (
        headers.contains_key(k) ==> vary_tagged(headers)[k] == headers[k]),
{
    if headers.contains_key("content-encoding"@) {
        assert(vary_tagged(headers)["vary"@].drop_last() =~= all_values(headers, "vary"@));
    }
}

/// A reply that refuses nothing has its payload compressed, and announces the
/// encoding of it.
pub proof fn law_other_replies_are_compressed<S, U>(
    data: ReplyView<S, U>,
    enc: Encoding,
    layer: CompressionView,
    r: ReplyView<S, U>,
)
    requires
        reply_compressed(data, enc, layer, r),
        enc != Encoding::Identity,
        data matches ReplyView::Rich(spec) ==> forall|k: Seq<char>| #[trigger]
            spec.headers.contains_key(k) ==> lower(k) != "content-encoding"@ && (lower(k)
                != "cache-control"@ || !has_item(spec.headers[k], "no-transform"@)),
    ensures
        exists|p: ReplyView<S, U>, name: Option<Seq<char>>|
            {
                &&& #[trigger] payload_compressed(payload_of(data), enc, layer, p, name)
                &&& name matches Some(n) ==> r matches ReplyView::Rich(spec) && spec.payload == p
                    && announced_as(spec.headers) == Some(n)
                &&& name is None ==> match data {
                    ReplyView::Rich(_) => r matches ReplyView::Rich(spec) && spec.payload == p
                        && announced_as(spec.headers) is None,
                    _ => r == p,
                }
            },
{
    reveal_strlit("content-encoding");
    assert(lower("content-encoding"@) =~= "content-encoding"@);
    match data {
        ReplyView::Rich(spec) => {
            assert(!announces_encoding(spec.headers));
            assert(!forbids_transform(spec.headers)) by {
                if forbids_transform(spec.headers) {
                    let k = choose|k: Seq<char>| #[trigger] is_no_transform(spec.headers, k);
                    assert(spec.headers.contains_key(k));
                }
            }
            let (p, name) = choose|p: ReplyView<S, U>, name: Option<Seq<char>>|
                #[trigger] payload_compressed(spec.payload, enc, layer, p, name) && r
                    == ReplyView::<S, U>::Rich(
                    Box::new(
                        SpecView {
                            payload: p,
                            status: spec.status,
                            headers: announced(spec.headers, name),
                        },
                    ),
                );
            assert(payload_compressed(spec.payload, enc, layer, p, name));
        },
        _ => {
            let (p, name) = choose|p: ReplyView<S, U>, name: Option<Seq<char>>|
                #[trigger] payload_compressed(data, enc, layer, p, name) && r == match name {
                    Some(n) => ReplyView::<S, U>::Rich(
                        Box::new(
                            SpecView {
                                payload: p,
                                status: None,
                                headers: announced(Map::empty(), name),
                            },
                        ),
                    ),
                    None => p,
                };
            assert(payload_compressed(data, enc, layer, p, name));
        },
    }
}

} // verus!
