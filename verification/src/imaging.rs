//! The image resizer's own logic: reading its command line, the `widthxheight`
//! size, the list of image sources, and the names of the files it writes.
use vstd::prelude::*;
use image::imageops::FilterType;
use image::{DynamicImage, ImageFormat};
use std::io::Cursor;
use crate::decimal::{is_digit, lemma_decimal_reads_back, lemma_u32_numeral_round_trip, decimal, decimal_string, is_u32_numeral, numeral_value, parse_u32_range};
use crate::paths::{extension, extension_of, joined, join};
use crate::text::{lemma_split_pair, lowercase_of, to_lowercase, same_text, string_views, collect_chars, split_on, split_ranges, string_of, trim, trim_bounds};

verus! {

/// Why a `widthxheight` size was refused.
#[derive(Debug, Clone, Copy, PartialEq, Eq, Structural)]
pub enum ResizeError {
    /// The text is not two parts separated by a single `x`.
    NotWidthByHeight,
    /// The width is not a `u32` number.
    BadWidth,
    /// The height is not a `u32` number.
    BadHeight,
    /// The width or the height is zero.
    ZeroSide,
}

/// What `parse_resize` answers for the text `s`.
pub open spec fn resize_result(s: Seq<char>) -> Result<(u32, u32), ResizeError> {
    let parts = split_on(s, 'x');
    if parts.len() != 2 {
        Err(ResizeError::NotWidthByHeight)
    } else if !is_u32_numeral(parts[0]) {
        Err(ResizeError::BadWidth)
    } else if !is_u32_numeral(parts[1]) {
        Err(ResizeError::BadHeight)
    } else if numeral_value(parts[0]) == 0 || numeral_value(parts[1]) == 0 {
        Err(ResizeError::ZeroSide)
    } else {
        Ok((numeral_value(parts[0]) as u32, numeral_value(parts[1]) as u32))
    }
}

/// Reads a size written `widthxheight`, such as `300x200`; both sides must be positive.
pub fn parse_resize(value: &str) -> (r: Result<(u32, u32), ResizeError>)
    ensures r == resize_result(value@),
{
    let chars = collect_chars(value);
    let parts = split_ranges(&chars, 'x');
    if parts.len() != 2 {
        return Err(ResizeError::NotWidthByHeight);
    }
    let (wlo, whi) = parts[0];
    let (hlo, hhi) = parts[1];
    assert(chars@.subrange(parts@[0].0 as int, parts@[0].1 as int) == split_on(chars@, 'x')[0]);
    assert(chars@.subrange(parts@[1].0 as int, parts@[1].1 as int) == split_on(chars@, 'x')[1]);
    let width = match parse_u32_range(&chars, wlo, whi) {
        Some(w) => w,
        None => return Err(ResizeError::BadWidth),
    };
    let height = match parse_u32_range(&chars, hlo, hhi) {
        Some(h) => h,
        None => return Err(ResizeError::BadHeight),
    };
    if width == 0 || height == 0 {
        return Err(ResizeError::ZeroSide);
    }
    Ok((width, height))
}


proof fn lemma_digits_lack(n: nat, c: char)
    requires !is_digit(c),
    ensures !decimal(n).contains(c),
{
    lemma_decimal_reads_back(n);
    if decimal(n).contains(c) {
        let j = choose|j: int| 0 <= j < decimal(n).len() && decimal(n)[j] == c;
        assert(is_digit(decimal(n)[j]));
    }
}

/// A size written `{width}x{height}`, both positive, reads back as that size.
pub proof fn lemma_resize_round_trip(width: u32, height: u32)
    requires
        width > 0,
        height > 0,
    ensures
        resize_result(decimal(width as nat) + seq!['x'] + decimal(height as nat)) == Ok::<(u32, u32), ResizeError>((width, height)),
{
    lemma_digits_lack(width as nat, 'x');
    lemma_digits_lack(height as nat, 'x');
    lemma_split_pair(decimal(width as nat), decimal(height as nat), 'x');
    lemma_u32_numeral_round_trip(width);
    lemma_u32_numeral_round_trip(height);
}

/// Why the command line `--files <path> --resize <size>` was refused.
#[derive(Debug, Clone, Copy, PartialEq, Eq, Structural)]
pub enum ArgError {
    /// There are not exactly four arguments after the program name.
    Usage,
    /// `--files` is the last argument.
    MissingFilesValue,
    /// `--resize` is the last argument.
    MissingResizeValue,
    /// The argument at this position is neither option.
    UnknownArgument(usize),
    /// `--files` was not given.
    NoFiles,
    /// `--resize` was not given.
    NoResize,
}

/// The options read from position `i` on, given those already read; a later
/// occurrence of an option replaces an earlier one.
pub open spec fn scan_options(
    args: Seq<Seq<char>>,
    i: nat,
    files: Option<Seq<char>>,
    size: Option<Seq<char>>,
) -> Result<(Seq<char>, Seq<char>), ArgError>
    decreases args.len() - i,
{
    if i >= args.len() {
        match (files, size) {
            (None, _) => Err(ArgError::NoFiles),
            (Some(_), None) => Err(ArgError::NoResize),
            (Some(f), Some(z)) => Ok((f, z)),
        }
    } else if args[i as int] == "--files"@ {
        if i + 1 >= args.len() {
            Err(ArgError::MissingFilesValue)
        } else {
            scan_options(args, i + 2, Some(args[i + 1 as int]), size)
        }
    } else if args[i as int] == "--resize"@ {
        if i + 1 >= args.len() {
            Err(ArgError::MissingResizeValue)
        } else {
            scan_options(args, i + 2, files, Some(args[i + 1 as int]))
        }
    } else {
        Err(ArgError::UnknownArgument(i as usize))
    }
}

/// What `parse_args` answers for the arguments `args` (the program name first).
pub open spec fn args_result(args: Seq<Seq<char>>) -> Result<(Seq<char>, Seq<char>), ArgError> {
    if args.len() != 5 {
        Err(ArgError::Usage)
    } else {
        scan_options(args, 1, None, None)
    }
}

/// Reads `--files <path> --resize <size>` from the program's arguments, the program
/// name first; gives the list file's path and the size text.
pub fn parse_args(args: &Vec<String>) -> (r: Result<(String, String), ArgError>)
    ensures
        match r {
            Ok((f, z)) => args_result(string_views(args@)) == Ok::<(Seq<char>, Seq<char>), ArgError>((f@, z@)),
            Err(e) => args_result(string_views(args@)) == Err::<(Seq<char>, Seq<char>), ArgError>(e),
        },
{
    let ghost views = string_views(args@);
    if args.len() != 5 {
        return Err(ArgError::Usage);
    }
    let mut files: Option<String> = None;
    let mut size: Option<String> = None;
    let mut i: usize = 1;
    while i < args.len()
        invariant
            views == string_views(args@),
            args@.len() == 5,
            1 <= i <= 6,
            args_result(views) == scan_options(
                views,
                i as nat,
                match files { Some(f) => Some(f@), None => None },
                match size { Some(z) => Some(z@), None => None },
            ),
        decreases 6 - i,
    {
        if same_text(&args[i], "--files") {
            if i + 1 >= args.len() {
                return Err(ArgError::MissingFilesValue);
            }
            files = Some(args[i + 1].clone());
            i = i + 2;
        } else if same_text(&args[i], "--resize") {
            if i + 1 >= args.len() {
                return Err(ArgError::MissingResizeValue);
            }
            size = Some(args[i + 1].clone());
            i = i + 2;
        } else {
            return Err(ArgError::UnknownArgument(i));
        }
    }
    match files {
        None => Err(ArgError::NoFiles),
        Some(f) => match size {
            None => Err(ArgError::NoResize),
            Some(z) => Ok((f, z)),
        },
    }
}


/// Whether `s` starts with `http://` or `https://`.
pub open spec fn is_web_address(s: Seq<char>) -> bool {
    "http://"@.is_prefix_of(s) || "https://"@.is_prefix_of(s)
}

/// Whether `chars` starts with the characters of `prefix`.
fn starts_with(chars: &Vec<char>, prefix: &str) -> (r: bool)
    ensures r == prefix@.is_prefix_of(chars@),
{
    let p = collect_chars(prefix);
    if p.len() > chars.len() {
        return false;
    }
    let mut i: usize = 0;
    while i < p.len()
        invariant
            p@ == prefix@,
            p.len() <= chars.len(),
            i <= p.len(),
            forall|j: int| 0 <= j < i ==> p@[j] == chars@[j],
        decreases p.len() - i,
    {
        if p[i] != chars[i] {
            return false;
        }
        i = i + 1;
    }
    true
}

/// Whether the source is a web address rather than a local file.
pub fn is_url(value: &str) -> (r: bool)
    ensures r == is_web_address(value@),
{
    let chars = collect_chars(value);
    starts_with(&chars, "http://") || starts_with(&chars, "https://")
}

/// Whether `e` is an image extension that the resizer keeps.
pub open spec fn is_kept_extension(e: Seq<char>) -> bool {
    ||| e == "jpg"@
    ||| e == "jpeg"@
    ||| e == "png"@
    ||| e == "bmp"@
    ||| e == "gif"@
    ||| e == "tiff"@
    ||| e == "webp"@
}

/// The extension chosen for a lower-cased source extension: kept when it is a
/// known image extension, `png` otherwise.
pub open spec fn chosen_extension(lowered: Option<Seq<char>>) -> Seq<char> {
    match lowered {
        Some(e) => if is_kept_extension(e) { e } else { "png"@ },
        None => "png"@,
    }
}

/// The part of a source before its first `?` (its query, if any, removed).
pub open spec fn without_query(source: Seq<char>) -> Seq<char> {
    split_on(source, '?')[0]
}

/// The extension the resized copy of `source` gets.
pub open spec fn detected_extension(source: Seq<char>) -> Seq<char> {
    chosen_extension(
        match extension_of(without_query(source)) {
            Some(e) => Some(lowercase_of(e)),
            None => None,
        },
    )
}

/// Picks the output extension from the lower-cased extension of a source.
pub fn choose_extension(lowered: Option<String>) -> (r: String)
    ensures r@ == chosen_extension(match lowered { Some(e) => Some(e@), None => None }),
{
    match lowered {
        Some(e) => {
            if same_text(&e, "jpg") || same_text(&e, "jpeg") || same_text(&e, "png")
                || same_text(&e, "bmp") || same_text(&e, "gif") || same_text(&e, "tiff")
                || same_text(&e, "webp") {
                e
            } else {
                "png".to_owned()
            }
        },
        None => "png".to_owned(),
    }
}

/// The extension of the file name in `source` (query removed), lower-cased, when it
/// is a known image extension; `png` otherwise.
pub fn detect_extension(source: &str) -> (r: String)
    ensures r@ == detected_extension(source@),
{
    let chars = collect_chars(source);
    let pieces = split_ranges(&chars, '?');
    let (lo, hi) = pieces[0];
    assert(chars@.subrange(pieces@[0].0 as int, pieces@[0].1 as int) == split_on(chars@, '?')[0]);
    let clean = string_of(&chars, lo, hi);
    let lowered = match extension(clean.as_str()) {
        Some(e) => Some(to_lowercase(e.as_str())),
        None => None,
    };
    choose_extension(lowered)
}

/// The name of the resized copy of the `index`-th source.
pub open spec fn resized_name(index: nat, ext: Seq<char>) -> Seq<char> {
    "resized_"@ + decimal(index) + "."@ + ext
}

/// Where the resized copy of `source`, the `index`-th line of the list, is written.
pub fn build_output_path(source: &str, output_dir: &str, index: usize) -> (r: String)
    ensures r@ == joined(output_dir@, resized_name(index as nat, detected_extension(source@))),
{
    let ext = detect_extension(source);
    let mut name = "resized_".to_owned();
    let num = decimal_string(index as u128);
    name.append(num.as_str());
    name.append(".");
    name.append(ext.as_str());
    join(output_dir, name.as_str())
}

/// The name under which the resized copy of the `index`-th source is uploaded,
/// `now_millis` being the upload time in milliseconds since the Unix epoch.
pub fn upload_file_name(index: usize, now_millis: u128) -> (r: String)
    ensures r@ == "resized_"@ + decimal(index as nat) + "_"@ + decimal(now_millis as nat) + ".png"@,
{
    let mut name = "resized_".to_owned();
    let num = decimal_string(index as u128);
    name.append(num.as_str());
    name.append("_");
    let t = decimal_string(now_millis);
    name.append(t.as_str());
    name.append(".png");
    name
}

/// The non-empty trimmed lines of a list, each with its 1-based line number.
pub open spec fn numbered_lines(lines: Seq<Seq<char>>) -> Seq<(nat, Seq<char>)>
    decreases lines.len(),
{
    if lines.len() == 0 {
        Seq::empty()
    } else {
        let kept = numbered_lines(lines.drop_last());
        let t = trim(lines.last());
        if t.len() > 0 {
            kept.push((lines.len(), t))
        } else {
            kept
        }
    }
}

/// The views of numbered sources.
pub open spec fn numbered_views(v: Seq<(usize, String)>) -> Seq<(nat, Seq<char>)> {
    v.map_values(|p: (usize, String)| (p.0 as nat, p.1@))
}

/// The image sources listed in `content`, one per line: each non-blank line,
/// trimmed, with its 1-based line number.
pub fn image_sources(content: &str) -> (r: Vec<(usize, String)>)
    ensures numbered_views(r@) == numbered_lines(split_on(content@, '\n')),
{
    let chars = collect_chars(content);
    let ranges = split_ranges(&chars, '\n');
    let ghost pieces = split_on(chars@, '\n');
    let mut result: Vec<(usize, String)> = Vec::new();
    let mut k: usize = 0;
    assert(pieces.take(0) =~= Seq::<Seq<char>>::empty());
    while k < ranges.len()
        invariant
            pieces == split_on(chars@, '\n'),
            ranges@.len() == pieces.len(),
            forall|j: int| #![trigger ranges@[j]] 0 <= j < ranges@.len() ==> {
                &&& ranges@[j].0 <= ranges@[j].1 <= chars@.len()
                &&& chars@.subrange(ranges@[j].0 as int, ranges@[j].1 as int) == pieces[j]
            },
            k <= ranges@.len(),
            numbered_views(result@) == numbered_lines(pieces.take(k as int)),
        decreases ranges@.len() - k,
    {
        let (lo, hi) = ranges[k];
        assert(chars@.subrange(ranges@[k as int].0 as int, ranges@[k as int].1 as int) == pieces[k as int]);
        let (a, b) = trim_bounds(&chars, lo, hi);
        assert(pieces.take(k + 1).drop_last() =~= pieces.take(k as int));
        assert(pieces.take(k + 1).last() == pieces[k as int]);
        if a < b {
            let t = string_of(&chars, a, b);
            result.push((k + 1, t));
        }
        assert(numbered_views(result@) =~= numbered_lines(pieces.take(k + 1)));
        k = k + 1;
    }
    assert(pieces.take(k as int) =~= pieces);
    result
}


/// Whether a run over the image list failed: it did when any line failed, whether
/// in reading, resizing or uploading its image.
pub fn had_errors(line_failed: &Vec<bool>) -> (r: bool)
    ensures r == exists|i: int| 0 <= i < line_failed@.len() && line_failed@[i],
{
    let mut i: usize = 0;
    while i < line_failed.len()
        invariant
            i <= line_failed@.len(),
            forall|j: int| 0 <= j < i ==> !line_failed@[j],
        decreases line_failed.len() - i,
    {
        if line_failed[i] {
            return true;
        }
        i = i + 1;
    }
    false
}

/// Where the resized images go, as the environment chose it.
pub enum UploaderPlan {
    /// Into this local directory.
    Fs { output_dir: String },
    /// Into this bucket of the S3-compatible service at this endpoint.
    S3 { bucket: String, endpoint: String },
}

/// Why no uploader could be chosen.
#[derive(Debug, Clone, Copy, PartialEq, Eq, Structural)]
pub enum UploaderError {
    /// `MYME_UPLOADER` is not set.
    MissingUploaderType,
    /// `MYME_FILES_PATH` is not set for the `fs` uploader.
    MissingFilesPath,
    /// `MYME_S3_BUCKET` is not set for the `s3` uploader.
    MissingBucket,
    /// `MYME_S3_ENDPOINT` is not set for the `s3` uploader.
    MissingEndpoint,
    /// `MYME_UPLOADER` is neither `fs` nor `s3`.
    UnknownUploader,
}

/// The view of a plan: `Ok((false, dir, ""))` for `fs`, `Ok((true, bucket, endpoint))` for `s3`.
pub open spec fn plan_view(r: Result<UploaderPlan, UploaderError>) -> Result<(bool, Seq<char>, Seq<char>), UploaderError> {
    match r {
        Ok(UploaderPlan::Fs { output_dir }) => Ok((false, output_dir@, Seq::empty())),
        Ok(UploaderPlan::S3 { bucket, endpoint }) => Ok((true, bucket@, endpoint@)),
        Err(e) => Err(e),
    }
}

/// The uploader chosen from the settings `MYME_UPLOADER`, `MYME_FILES_PATH`,
/// `MYME_S3_BUCKET` and `MYME_S3_ENDPOINT` (`None` where unset); a setting is
/// only looked at when the chosen uploader needs it.
pub open spec fn planned(
    kind: Option<Seq<char>>,
    files_path: Option<Seq<char>>,
    bucket: Option<Seq<char>>,
    endpoint: Option<Seq<char>>,
) -> Result<(bool, Seq<char>, Seq<char>), UploaderError> {
    match kind {
        None => Err(UploaderError::MissingUploaderType),
        Some(k) => if k == "fs"@ {
            match files_path {
                None => Err(UploaderError::MissingFilesPath),
                Some(d) => Ok((false, d, Seq::empty())),
            }
        } else if k == "s3"@ {
            match (bucket, endpoint) {
                (None, _) => Err(UploaderError::MissingBucket),
                (Some(_), None) => Err(UploaderError::MissingEndpoint),
                (Some(b), Some(e)) => Ok((true, b, e)),
            }
        } else {
            Err(UploaderError::UnknownUploader)
        },
    }
}

/// Chooses where the resized images go from the environment's settings.
pub fn plan_uploader(
    kind: Option<String>,
    files_path: Option<String>,
    bucket: Option<String>,
    endpoint: Option<String>,
) -> (r: Result<UploaderPlan, UploaderError>)
    ensures
        plan_view(r) == planned(
            crate::paths::opt_view(kind),
            crate::paths::opt_view(files_path),
            crate::paths::opt_view(bucket),
            crate::paths::opt_view(endpoint),
        ),
{
    let k = match kind {
        None => return Err(UploaderError::MissingUploaderType),
        Some(k) => k,
    };
    if same_text(&k, "fs") {
        match files_path {
            None => Err(UploaderError::MissingFilesPath),
            Some(d) => Ok(UploaderPlan::Fs { output_dir: d }),
        }
    } else if same_text(&k, "s3") {
        match bucket {
            None => Err(UploaderError::MissingBucket),
            Some(b) => match endpoint {
                None => Err(UploaderError::MissingEndpoint),
                Some(e) => Ok(UploaderPlan::S3 { bucket: b, endpoint: e }),
            },
        }
    } else {
        Err(UploaderError::UnknownUploader)
    }
}

/// The error type of `image`.
#[verifier::external_type_specification]
#[verifier::external_body]
pub struct ExImageError(image::ImageError);

/// A decoded image (`image::DynamicImage`).
#[verifier::external_type_specification]
#[verifier::external_body]
pub struct ExDynamicImage(DynamicImage);

/// The image formats the resizer writes.
#[derive(Debug, Clone, Copy, PartialEq, Eq, Structural)]
pub enum ImageKind {
    Png,
    Jpeg,
    Bmp,
    Gif,
    Tiff,
    WebP,
}

/// The format written for a kept extension.
pub open spec fn kind_of_extension(e: Seq<char>) -> Option<ImageKind> {
    if e == "png"@ {
        Some(ImageKind::Png)
    } else if e == "jpg"@ || e == "jpeg"@ {
        Some(ImageKind::Jpeg)
    } else if e == "bmp"@ {
        Some(ImageKind::Bmp)
    } else if e == "gif"@ {
        Some(ImageKind::Gif)
    } else if e == "tiff"@ {
        Some(ImageKind::Tiff)
    } else if e == "webp"@ {
        Some(ImageKind::WebP)
    } else {
        None
    }
}

/// Each extension names its own format and no other: `png` gives PNG, `jpg` and
/// `jpeg` give JPEG, `bmp` gives BMP, `gif` gives GIF, `tiff` gives TIFF, `webp`
/// gives WebP, and any other extension gives none.
pub proof fn lemma_extension_names_its_format(e: Seq<char>)
    ensures
        kind_of_extension(e) == Some(ImageKind::Png) <==> e == seq!['p', 'n', 'g'],
        kind_of_extension(e) == Some(ImageKind::Jpeg) <==> (e == seq!['j', 'p', 'g'] || e == seq!['j', 'p', 'e', 'g']),
        kind_of_extension(e) == Some(ImageKind::Bmp) <==> e == seq!['b', 'm', 'p'],
        kind_of_extension(e) == Some(ImageKind::Gif) <==> e == seq!['g', 'i', 'f'],
        kind_of_extension(e) == Some(ImageKind::Tiff) <==> e == seq!['t', 'i', 'f', 'f'],
        kind_of_extension(e) == Some(ImageKind::WebP) <==> e == seq!['w', 'e', 'b', 'p'],
        kind_of_extension(e) is None <==> !(e == seq!['p', 'n', 'g'] || e == seq!['j', 'p', 'g']
            || e == seq!['j', 'p', 'e', 'g'] || e == seq!['b', 'm', 'p'] || e == seq!['g', 'i', 'f']
            || e == seq!['t', 'i', 'f', 'f'] || e == seq!['w', 'e', 'b', 'p']),
{
    reveal_strlit("png");
    reveal_strlit("jpg");
    reveal_strlit("jpeg");
    reveal_strlit("bmp");
    reveal_strlit("gif");
    reveal_strlit("tiff");
    reveal_strlit("webp");
    assert("png"@ =~= seq!['p', 'n', 'g']);
    assert("jpg"@ =~= seq!['j', 'p', 'g']);
    assert("jpeg"@ =~= seq!['j', 'p', 'e', 'g']);
    assert("bmp"@ =~= seq!['b', 'm', 'p']);
    assert("gif"@ =~= seq!['g', 'i', 'f']);
    assert("tiff"@ =~= seq!['t', 'i', 'f', 'f']);
    assert("webp"@ =~= seq!['w', 'e', 'b', 'p']);
}

/// Each of `jpg`, `jpeg`, `png`, `bmp`, `gif`, `tiff` and `webp` is kept as the
/// extension of the resized copy, and any other extension, or none, becomes `png`;
/// so a source whose (query-free, lower-cased) extension is one of the seven keeps it.
pub proof fn lemma_image_extensions_are_kept(e: Seq<char>, source: Seq<char>)
    ensures
        (e == seq!['j', 'p', 'g'] || e == seq!['j', 'p', 'e', 'g'] || e == seq!['p', 'n', 'g']
            || e == seq!['b', 'm', 'p'] || e == seq!['g', 'i', 'f'] || e == seq!['t', 'i', 'f', 'f']
            || e == seq!['w', 'e', 'b', 'p']) ==> chosen_extension(Some(e)) == e,
        !(e == seq!['j', 'p', 'g'] || e == seq!['j', 'p', 'e', 'g'] || e == seq!['p', 'n', 'g']
            || e == seq!['b', 'm', 'p'] || e == seq!['g', 'i', 'f'] || e == seq!['t', 'i', 'f', 'f']
            || e == seq!['w', 'e', 'b', 'p']) ==> chosen_extension(Some(e)) == seq!['p', 'n', 'g'],
        chosen_extension(None) == seq!['p', 'n', 'g'],
        (extension_of(without_query(source)) matches Some(x) && lowercase_of(x) == e
            && (e == seq!['j', 'p', 'g'] || e == seq!['j', 'p', 'e', 'g'] || e == seq!['p', 'n', 'g']
            || e == seq!['b', 'm', 'p'] || e == seq!['g', 'i', 'f'] || e == seq!['t', 'i', 'f', 'f']
            || e == seq!['w', 'e', 'b', 'p'])) ==> detected_extension(source) == e,
{
    reveal_strlit("png");
    reveal_strlit("jpg");
    reveal_strlit("jpeg");
    reveal_strlit("bmp");
    reveal_strlit("gif");
    reveal_strlit("tiff");
    reveal_strlit("webp");
    assert("png"@ =~= seq!['p', 'n', 'g']);
    assert("jpg"@ =~= seq!['j', 'p', 'g']);
    assert("jpeg"@ =~= seq!['j', 'p', 'e', 'g']);
    assert("bmp"@ =~= seq!['b', 'm', 'p']);
    assert("gif"@ =~= seq!['g', 'i', 'f']);
    assert("tiff"@ =~= seq!['t', 'i', 'f', 'f']);
    assert("webp"@ =~= seq!['w', 'e', 'b', 'p']);
}

/// The format that a file with extension `ext` is written in, if the resizer writes it.
pub fn image_kind_for(ext: &str) -> (r: Option<ImageKind>)
    ensures r == kind_of_extension(ext@),
{
    let e = ext.to_owned();
    if same_text(&e, "png") {
        Some(ImageKind::Png)
    } else if same_text(&e, "jpg") || same_text(&e, "jpeg") {
        Some(ImageKind::Jpeg)
    } else if same_text(&e, "bmp") {
        Some(ImageKind::Bmp)
    } else if same_text(&e, "gif") {
        Some(ImageKind::Gif)
    } else if same_text(&e, "tiff") {
        Some(ImageKind::Tiff)
    } else if same_text(&e, "webp") {
        Some(ImageKind::WebP)
    } else {
        None
    }
}

/// Whether `image::load_from_memory` reads `bytes` as an image (its format guessed
/// from the bytes).
pub uninterp spec fn image_decodes(bytes: Seq<u8>) -> bool;

/// Decodes an image whose format is guessed from its bytes (`image::load_from_memory`).
#[verifier::external_body]
fn decode_image(bytes: &[u8]) -> (r: Result<DynamicImage, image::ImageError>)
    ensures
        r is Ok <==> image_decodes(bytes@),
{
    image::load_from_memory(bytes)
}

/// The width and height recorded in the header of the image file `bytes`, in the
/// format its leading bytes announce (what `image::ImageReader::into_dimensions`
/// reads, with no limit on the size); `None` where no header is recognised.
pub uninterp spec fn encoded_size(bytes: Seq<u8>) -> Option<(u32, u32)>;

/// Whether `bytes` begins with the signature of an image file of format `kind`, the
/// leading bytes by which `image::guess_format` recognises that format.
pub open spec fn announces(bytes: Seq<u8>, kind: ImageKind) -> bool {
    match kind {
        ImageKind::Png => bytes.len() >= 8 && bytes.take(8) == seq![0x89u8, 0x50, 0x4e, 0x47, 0x0d, 0x0a, 0x1a, 0x0a],
        ImageKind::Jpeg => bytes.len() >= 3 && bytes.take(3) == seq![0xffu8, 0xd8, 0xff],
        ImageKind::Bmp => bytes.len() >= 2 && bytes.take(2) == seq![0x42u8, 0x4d],
        ImageKind::Gif => bytes.len() >= 6 && bytes.take(6) == seq![0x47u8, 0x49, 0x46, 0x38, 0x39, 0x61],
        ImageKind::Tiff => bytes.len() >= 4 && (bytes.take(4) == seq![0x49u8, 0x49, 0x2a, 0x00]
            || bytes.take(4) == seq![0x4du8, 0x4d, 0x00, 0x2a]),
        ImageKind::WebP => bytes.len() >= 12 && bytes.take(4) == seq![0x52u8, 0x49, 0x46, 0x46]
            && bytes.subrange(8, 12) == seq![0x57u8, 0x45, 0x42, 0x50],
    }
}

/// A decoded image scaled to a known size; only `resize_exact` makes one, so the
/// size recorded is that of the image held.
pub struct Resized {
    image: DynamicImage,
    size: Ghost<(u32, u32)>,
}

impl Resized {
    /// Its width and height.
    pub closed spec fn size(&self) -> (u32, u32) {
        self.size@
    }
}

/// The decoded image scaled to exactly `width` by `height` with the Lanczos filter
/// (`DynamicImage::resize_exact` with `FilterType::Lanczos3`, whose result has
/// exactly those sides). Nothing is stated of the pixels: the filter computes in
/// floating point, whose results the library does not model.
#[verifier::external_body]
fn resize_exact(image: &DynamicImage, width: u32, height: u32) -> (r: Resized)
    ensures
        r.size() == (width, height),
{
    Resized { image: image.resize_exact(width, height, FilterType::Lanczos3), size: Ghost((width, height)) }
}

/// The image encoded as `kind` (`DynamicImage::write_to` with the matching
/// `ImageFormat`): what it writes begins with the signature of `kind` and records
/// the image's width and height in its header. When the encoder fails (such as on
/// sides too large for the format) is not stated, nor are the pixel bytes.
#[verifier::external_body]
fn encode_image(image: &Resized, kind: ImageKind) -> (r: Result<Vec<u8>, image::ImageError>)
    ensures
        r matches Ok(out) ==> announces(out@, kind) && encoded_size(out@) == Some(image.size()),
{
    let format = match kind {
        ImageKind::Png => ImageFormat::Png,
        ImageKind::Jpeg => ImageFormat::Jpeg,
        ImageKind::Bmp => ImageFormat::Bmp,
        ImageKind::Gif => ImageFormat::Gif,
        ImageKind::Tiff => ImageFormat::Tiff,
        ImageKind::WebP => ImageFormat::WebP,
    };
    let mut buffer: Vec<u8> = Vec::new();
    let written = image.image.write_to(&mut Cursor::new(&mut buffer), format);
    match written {
        Ok(()) => Ok(buffer),
        Err(e) => Err(e),
    }
}

/// Why an image could not be resized.
pub enum ImageFailure {
    /// The bytes are not an image that can be read.
    Decode(image::ImageError),
    /// The resized image could not be encoded.
    Encode(image::ImageError),
}

/// The image in `bytes` scaled to exactly `width` by `height` and encoded as `kind`:
/// `Decode` exactly when the bytes are not an image; otherwise an image file of
/// format `kind` whose header records `width` by `height`, or `Encode` where the
/// encoder fails on the scaled image.
pub fn resize_image(bytes: &[u8], width: u32, height: u32, kind: ImageKind) -> (r: Result<Vec<u8>, ImageFailure>)
    ensures
        r matches Err(ImageFailure::Decode(_)) <==> !image_decodes(bytes@),
        image_decodes(bytes@) ==> (r is Ok || r matches Err(ImageFailure::Encode(_))),
        r matches Ok(out) ==> announces(out@, kind) && encoded_size(out@) == Some((width, height)),
{
    let img = match decode_image(bytes) {
        Ok(img) => img,
        Err(e) => return Err(ImageFailure::Decode(e)),
    };
    let resized = resize_exact(&img, width, height);
    match encode_image(&resized, kind) {
        Ok(out) => Ok(out),
        Err(e) => Err(ImageFailure::Encode(e)),
    }
}

}
