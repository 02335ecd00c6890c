//! The web page downloader's own logic: reading the list of addresses and naming
//! the file each page is saved to.
use vstd::prelude::*;
use url::Url;
use crate::decimal::{decimal_padded, zero_padded};
use crate::paths::opt_view;
use crate::text::{collect_chars, push_char, split_trimmed, string_views, tokens};

verus! {

/// The error type of `url` (why an address does not parse).
#[verifier::external_type_specification]
#[verifier::external_body]
pub struct ExUrlParseError(url::ParseError);

/// The host and the path of the address `s` as `url::Url::parse` reads it
/// (`Url::host_str` and `Url::path`), or `None` when it does not parse.
pub uninterp spec fn url_parts(s: Seq<char>) -> Option<(Option<Seq<char>>, Seq<char>)>;

/// `name` made safe as a file name by `sanitize_filename::sanitize`, whose default
/// options follow the build target: everywhere, characters illegal in file names
/// and control characters are removed, a name of dots only is emptied and the
/// result is cut to 255 bytes; on Windows, reserved names such as `con` and
/// trailing dots and spaces are removed as well.
pub uninterp spec fn sanitized(name: Seq<char>) -> Seq<char>;

/// A parsed web address: the parts that name the saved file.
pub struct WebAddress {
    pub host: Option<String>,
    pub path: String,
}

/// Parses `s` with `url::Url::parse` and keeps its host and path.
#[verifier::external_body]
fn url_parse(s: &str) -> (r: Result<WebAddress, url::ParseError>)
    ensures
        match r {
            Ok(a) => url_parts(s@) == Some((opt_view(a.host), a.path@)),
            Err(_) => url_parts(s@) is None,
        },
{
    match Url::parse(s) {
        Ok(u) => Ok(WebAddress { host: u.host_str().map(str::to_owned), path: u.path().to_owned() }),
        Err(e) => Err(e),
    }
}

/// `name` made safe as a file name (`sanitize_filename::sanitize`).
#[verifier::external_body]
fn sanitize(name: &str) -> (r: String)
    ensures r@ == sanitized(name@),
{
    sanitize_filename::sanitize(name)
}

/// Why an address was refused, with `url`'s reason.
pub struct InvalidUrl(pub url::ParseError);

/// Parses a web address.
pub fn parse_url(s: &str) -> (r: Result<WebAddress, InvalidUrl>)
    ensures
        match r {
            Ok(a) => url_parts(s@) == Some((opt_view(a.host), a.path@)),
            Err(_) => url_parts(s@) is None,
        },
{
    match url_parse(s) {
        Ok(a) => Ok(a),
        Err(e) => Err(InvalidUrl(e)),
    }
}

/// The addresses listed in `content`: each line trimmed, blank lines dropped.
/// (`str::lines` also drops a `\r` before each `\n`; trimming removes it anyway.)
pub fn parse_urls(content: &str) -> (r: Vec<String>)
    ensures string_views(r@) == tokens(content@, '\n'),
{
    split_trimmed(content, '\n')
}

/// `s` without the `c` characters at its start.
pub open spec fn strip_start(s: Seq<char>, c: char) -> Seq<char>
    decreases s.len(),
{
    if s.len() > 0 && s[0] == c {
        strip_start(s.drop_first(), c)
    } else {
        s
    }
}

/// `s` without the `c` characters at its end.
pub open spec fn strip_end(s: Seq<char>, c: char) -> Seq<char>
    decreases s.len(),
{
    if s.len() > 0 && s.last() == c {
        strip_end(s.drop_last(), c)
    } else {
        s
    }
}

/// `s` without `c` at either end (`str::trim_matches` with a character).
pub open spec fn strip(s: Seq<char>, c: char) -> Seq<char> {
    strip_end(strip_start(s, c), c)
}

/// `s` with every `/` replaced by `_`.
pub open spec fn slashes_to_underscores(s: Seq<char>) -> Seq<char> {
    s.map_values(|ch: char| if ch == '/' { '_' } else { ch })
}

/// The file name for the `index`-th page, from its sanitized host and, unless the
/// path is empty, its sanitized path: `NNN_host_index.html` or `NNN_host_path.html`,
/// the index padded to three digits.
pub open spec fn page_file_name(index: nat, host: Seq<char>, path: Option<Seq<char>>) -> Seq<char> {
    let stem = match path {
        None => host + "_index"@,
        Some(p) => host + "_"@ + p,
    };
    zero_padded(index, 3) + "_"@ + stem + ".html"@
}

/// Composes the file name of the `index`-th page from its sanitized host and path.
pub fn compose_file_name(index: usize, host: &str, path: Option<&str>) -> (r: String)
    ensures r@ == page_file_name(index as nat, host@, match path { Some(p) => Some(p@), None => None }),
{
    let mut name = decimal_padded(index as u128, 3);
    name.append("_");
    name.append(host);
    match path {
        None => {
            name.append("_index");
        },
        Some(p) => {
            name.append("_");
            name.append(p);
        },
    }
    name.append(".html");
    name
}

/// The file the `index`-th page, fetched from `url`, is saved to.
pub open spec fn page_path(url_host: Option<Seq<char>>, url_path: Seq<char>, index: nat) -> Seq<char> {
    let host = match url_host {
        Some(h) => h,
        None => "unknown-host"@,
    };
    let path = strip(url_path, '/');
    page_file_name(
        index,
        sanitized(host),
        if path.len() == 0 { None } else { Some(sanitized(slashes_to_underscores(path))) },
    )
}

/// The bounds of `chars` without `c` at either end.
fn strip_bounds(chars: &Vec<char>, c: char) -> (r: (usize, usize))
    ensures
        r.0 <= r.1 <= chars.len(),
        chars@.subrange(r.0 as int, r.1 as int) == strip(chars@, c),
{
    let ghost s = chars@;
    let hi = chars.len();
    let mut a: usize = 0;
    assert(s.subrange(0, hi as int) =~= s);
    while a < hi && chars[a] == c
        invariant
            a <= hi == chars.len(),
            s == chars@,
            strip_start(s, c) == strip_start(s.subrange(a as int, hi as int), c),
        decreases hi - a,
    {
        assert(s.subrange(a as int, hi as int).drop_first() =~= s.subrange(a + 1, hi as int));
        a = a + 1;
    }
    let mut b = hi;
    while b > a && chars[b - 1] == c
        invariant
            a <= b <= hi == chars.len(),
            s == chars@,
            strip_end(s.subrange(a as int, hi as int), c) == strip_end(s.subrange(a as int, b as int), c),
        decreases b - a,
    {
        assert(s.subrange(a as int, b as int).drop_last() =~= s.subrange(a as int, b - 1));
        b = b - 1;
    }
    (a, b)
}

/// `chars[lo..hi]` with every `/` replaced by `_`.
fn underscored(chars: &Vec<char>, lo: usize, hi: usize) -> (r: String)
    requires lo <= hi <= chars.len(),
    ensures r@ == slashes_to_underscores(chars@.subrange(lo as int, hi as int)),
{
    let mut r = String::new();
    let mut i = lo;
    while i < hi
        invariant
            lo <= i <= hi <= chars.len(),
            r@ == slashes_to_underscores(chars@.subrange(lo as int, i as int)),
        decreases hi - i,
    {
        let ch = if chars[i] == '/' { '_' } else { chars[i] };
        push_char(&mut r, ch);
        i = i + 1;
        assert(r@ =~= slashes_to_underscores(chars@.subrange(lo as int, i as int)));
    }
    r
}

/// The file the `index`-th page, fetched from `url`, is saved to: the index padded to
/// three digits, the sanitized host, and the sanitized path with `/` turned into `_`.
pub fn build_output_path(url: &WebAddress, index: usize) -> (r: String)
    ensures r@ == page_path(opt_view(url.host), url.path@, index as nat),
{
    let host = match &url.host {
        Some(h) => h.clone(),
        None => "unknown-host".to_owned(),
    };
    let chars = collect_chars(url.path.as_str());
    let (a, b) = strip_bounds(&chars, '/');
    let safe_host = sanitize(host.as_str());
    if a == b {
        compose_file_name(index, safe_host.as_str(), None)
    } else {
        let path = underscored(&chars, a, b);
        let safe_path = sanitize(path.as_str());
        compose_file_name(index, safe_host.as_str(), Some(safe_path.as_str()))
    }
}

}
