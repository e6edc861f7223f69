//! The status bar's helpers: where an icon comes from, how a decoded icon
//! becomes a 32-bit surface image, and the uptime line.

use vstd::arithmetic::div_mod::lemma_fundamental_div_mod_converse;
use vstd::prelude::*;
use vstd::string::StringExecFns;

verus! {

/// `identifier` with a leading `~` replaced by `home`.
pub open spec fn expanded_home(identifier: Seq<char>, home: Seq<char>) -> Seq<char> {
    if identifier.len() > 0 && identifier[0] == '~' {
        home + identifier.subrange(1, identifier.len() as int)
    } else {
        identifier
    }
}

/// Replace a leading `~` of an icon path by the home directory.
pub fn expand_home(identifier: &str, home: &str) -> (path: String)
    ensures
        path@ == expanded_home(identifier@, home@),
{
    let n = identifier.unicode_len();
    if n > 0 && identifier.get_char(0) == '~' {
        home.to_owned().concat(identifier.substring_char(1, n))
    } else {
        identifier.to_owned()
    }
}

/// The icon file to load: the configured path if there is one, else the one
/// the search found; an empty path means no icon.
pub fn icon_path(configured: Option<String>, found: Option<String>) -> (path: Option<String>)
    ensures
        match configured {
            Some(c) => if c@.len() == 0 {
                path is None
            } else {
                path == Some(c)
            },
            None => match found {
                Some(f) => if f@.len() == 0 {
                    path is None
                } else {
                    path == Some(f)
                },
                None => path is None,
            },
        },
{
    let chosen = match configured {
        Some(c) => Some(c),
        None => found,
    };
    match chosen {
        Some(p) => {
            if p.as_str().unicode_len() == 0 {
                None
            } else {
                Some(p)
            }
        },
        None => None,
    }
}

/// The icon themes searched, in order.
pub open spec fn icon_theme(i: int) -> Seq<char> {
    if i == 0 {
        "WhiteSur"@
    } else if i == 1 {
        "WhiteSur-dark"@
    } else if i == 2 {
        "WhiteSur-light"@
    } else if i == 3 {
        "Adwaita"@
    } else if i == 4 {
        "hicolor"@
    } else if i == 5 {
        "breeze"@
    } else {
        "Papirus"@
    }
}

/// The directories searched inside each theme, in order.
pub open spec fn icon_category(i: int) -> Seq<char> {
    if i == 0 {
        "status/symbolic"@
    } else if i == 1 {
        "actions/symbolic"@
    } else if i == 2 {
        "devices/symbolic"@
    } else if i == 3 {
        "status/24"@
    } else if i == 4 {
        "status/22"@
    } else if i == 5 {
        "status/16"@
    } else if i == 6 {
        "status"@
    } else if i == 7 {
        "actions"@
    } else if i == 8 {
        "devices"@
    } else if i == 9 {
        "symbolic/status"@
    } else if i == 10 {
        "symbolic/actions"@
    } else if i == 11 {
        "symbolic/devices"@
    } else if i == 12 {
        "24x24/status"@
    } else if i == 13 {
        "22x22/status"@
    } else if i == 14 {
        "16x16/status"@
    } else {
        "48x48/status"@
    }
}

/// The file extensions tried for each directory, in order.
pub open spec fn icon_extension(i: int) -> Seq<char> {
    if i == 0 {
        ".svg"@
    } else {
        ".png"@
    }
}

/// How many files are tried for an icon under each base directory.
pub const ICON_CANDIDATES: usize = 224;

/// The `k`-th file tried for icon `name` under a base directory: themes
/// outermost, then the directories inside a theme, then the extensions.
pub open spec fn icon_candidate(name: Seq<char>, k: int) -> Seq<char> {
    icon_theme(k / 32) + "/"@ + icon_category((k / 2) % 16) + "/"@ + name + icon_extension(k % 2)
}

/// How many icon themes are searched.
pub const ICON_THEMES: usize = 7;

/// The `i`-th icon theme searched.
pub fn theme_name(i: usize) -> (t: &'static str)
    requires
        i < ICON_THEMES,
    ensures
        t@ == icon_theme(i as int),
{
    match i {
        0 => "WhiteSur",
        1 => "WhiteSur-dark",
        2 => "WhiteSur-light",
        3 => "Adwaita",
        4 => "hicolor",
        5 => "breeze",
        _ => "Papirus",
    }
}

fn category_name(i: usize) -> (c: &'static str)
    requires
        i < 16,
    ensures
        c@ == icon_category(i as int),
{
    match i {
        0 => "status/symbolic",
        1 => "actions/symbolic",
        2 => "devices/symbolic",
        3 => "status/24",
        4 => "status/22",
        5 => "status/16",
        6 => "status",
        7 => "actions",
        8 => "devices",
        9 => "symbolic/status",
        10 => "symbolic/actions",
        11 => "symbolic/devices",
        12 => "24x24/status",
        13 => "22x22/status",
        14 => "16x16/status",
        _ => "48x48/status",
    }
}

fn extension_name(i: usize) -> (e: &'static str)
    requires
        i < 2,
    ensures
        e@ == icon_extension(i as int),
{
    if i == 0 {
        ".svg"
    } else {
        ".png"
    }
}

/// The files tried for icon `name` under each base directory of the icon
/// search, as paths relative to that directory, in the order they are tried.
pub fn icon_candidates(name: &str) -> (paths: Vec<String>)
    ensures
        paths@.len() == ICON_CANDIDATES,
        forall|k: int| 0 <= k < ICON_CANDIDATES ==> #[trigger] paths@[k]@ == icon_candidate(name@, k),
{
    let mut paths: Vec<String> = Vec::new();
    let mut k: usize = 0;
    while k < ICON_CANDIDATES
        invariant
            k <= ICON_CANDIDATES,
            paths@.len() == k,
            forall|j: int| 0 <= j < k ==> #[trigger] paths@[j]@ == icon_candidate(name@, j),
        decreases ICON_CANDIDATES - k,
    {
        let mut p = String::from_str(theme_name(k / 32));
        p.append("/");
        p.append(category_name((k / 2) % 16));
        p.append("/");
        p.append(name);
        p.append(extension_name(k % 2));
        paths.push(p);
        k = k + 1;
    }
    paths
}

/// Byte `i` of the 32-bit surface image made from a decoded icon of
/// `width` pixels a row, rows `rowstride` bytes apart, `channels` bytes a
/// pixel (RGBA or RGB); other channel counts give zeros.
pub open spec fn icon_byte(
    pixels: Seq<u8>,
    width: int,
    rowstride: int,
    channels: int,
    i: int,
) -> u8 {
    let p = i / 4;
    let k = i % 4;
    let src = (p / width) * rowstride + (p % width) * channels;
    if channels == 4 || channels == 3 {
        if k == 0 {
            pixels[src + 2]
        } else if k == 1 {
            pixels[src + 1]
        } else if k == 2 {
            pixels[src]
        } else if channels == 4 {
            pixels[src + 3]
        } else {
            255
        }
    } else {
        0
    }
}

pub open spec fn icon_image(
    pixels: Seq<u8>,
    width: nat,
    height: nat,
    rowstride: nat,
    channels: nat,
) -> Seq<u8> {
    Seq::new(
        4 * width * height,
        |i: int| icon_byte(pixels, width as int, rowstride as int, channels as int, i),
    )
}

/// The pixels of a decoded icon (red, green, blue and, with four channels,
/// alpha) as a tightly packed 32-bit image (blue, green, red, alpha in
/// memory); an RGB icon is opaque.
pub fn icon_to_argb(
    pixels: &[u8],
    width: usize,
    height: usize,
    rowstride: usize,
    channels: usize,
) -> (image: Vec<u8>)
    requires
        4 * width * height <= usize::MAX,
        width == 0 || height == 0 || (channels != 3 && channels != 4) || (height - 1) * rowstride
            + width * channels <= pixels@.len(),
    ensures
        image@ == icon_image(pixels@, width as nat, height as nat, rowstride as nat, channels as nat),
{
    let mut image: Vec<u8> = Vec::new();
    let plen = pixels.len();
    let ghost want = icon_image(
        pixels@,
        width as nat,
        height as nat,
        rowstride as nat,
        channels as nat,
    );
    let mut y: usize = 0;
    while y < height
        invariant
            4 * width * height <= usize::MAX,
            width == 0 || height == 0 || (channels != 3 && channels != 4) || (height - 1)
                * rowstride + width * channels <= pixels@.len(),
            want == icon_image(pixels@, width as nat, height as nat, rowstride as nat, channels as nat),
            0 <= y <= height,
            plen == pixels@.len(),
            image@ =~= want.take(4 * (y * width)),
        decreases height - y,
    {
        let mut x: usize = 0;
        while x < width
            invariant
                4 * width * height <= usize::MAX,
                width == 0 || height == 0 || (channels != 3 && channels != 4) || (height - 1)
                    * rowstride + width * channels <= pixels@.len(),
                want == icon_image(
                    pixels@,
                    width as nat,
                    height as nat,
                    rowstride as nat,
                    channels as nat,
                ),
                y < height,
                0 <= x <= width,
                plen == pixels@.len(),
                image@ =~= want.take(4 * (y * width + x)),
            decreases width - x,
        {
            let ghost p = y * width + x;
            proof {
                assert(4 * (p + 1) <= 4 * width * height) by (nonlinear_arith)
                    requires
                        p == y * width + x,
                        y < height,
                        x < width,
                ;
                lemma_fundamental_div_mod_converse(p, width as int, y as int, x as int);
            }
            if channels == 4 || channels == 3 {
                proof {
                    assert(y * rowstride + x * channels + channels <= pixels@.len()) by (
                    nonlinear_arith)
                        requires
                            y <= height - 1,
                            x + 1 <= width,
                            (height - 1) * rowstride + width * channels <= pixels@.len(),
                            channels > 0,
                    ;
                }
                let src = y * rowstride + x * channels;
                image.push(pixels[src + 2]);
                image.push(pixels[src + 1]);
                image.push(pixels[src]);
                if channels == 4 {
                    image.push(pixels[src + 3]);
                } else {
                    image.push(255);
                }
            } else {
                image.push(0);
                image.push(0);
                image.push(0);
                image.push(0);
            }
            proof {
                assert forall|i: int| 4 * p <= i < 4 * (p + 1) implies #[trigger] image@[i]
                    == want[i] by {
                    lemma_fundamental_div_mod_converse(i, 4, p, i - 4 * p);
                }
                assert(y * width + (x + 1) == p + 1);
            }
            x = x + 1;
        }
        proof {
            assert((y + 1) * width == y * width + width) by (nonlinear_arith);
        }
        y = y + 1;
    }
    proof {
        assert(4 * (height * width) == 4 * width * height) by (nonlinear_arith);
    }
    image
}

/// A rendered RGBA image (red, green, blue, alpha in memory) with red and
/// blue swapped, the memory order of a 32-bit surface image.
pub open spec fn swapped_red_blue(data: Seq<u8>) -> Seq<u8> {
    Seq::new(
        data.len(),
        |i: int|
            if i % 4 == 0 {
                data[i + 2]
            } else if i % 4 == 2 {
                data[i - 2]
            } else {
                data[i]
            },
    )
}

/// Swap the red and blue bytes of every pixel of a rendered RGBA image.
pub fn rgba_to_bgra(data: &[u8]) -> (image: Vec<u8>)
    requires
        data@.len() % 4 == 0,
    ensures
        image@ == swapped_red_blue(data@),
{
    let n = data.len();
    let mut image: Vec<u8> = Vec::new();
    let mut i: usize = 0;
    while i < n
        invariant
            n == data@.len(),
            n % 4 == 0,
            i % 4 == 0,
            0 <= i <= n,
            image@ =~= swapped_red_blue(data@).take(i as int),
        decreases n - i,
    {
        image.push(data[i + 2]);
        image.push(data[i + 1]);
        image.push(data[i]);
        image.push(data[i + 3]);
        proof {
            assert forall|j: int| i <= j < i + 4 implies #[trigger] image@[j] == swapped_red_blue(
                data@,
            )[j] by {
                lemma_fundamental_div_mod_converse(j, 4, (i / 4) as int, j - i);
                lemma_fundamental_div_mod_converse(i as int, 4, (i / 4) as int, 0);
            }
        }
        i = i + 4;
    }
    image
}

/// What `image::load_from_memory` decodes from `data`, converted to 8-bit
/// RGBA (`DynamicImage::to_rgba8`): the pixels, the width and the height.
pub uninterp spec fn decoded_rgba(data: Seq<u8>) -> Option<(Seq<u8>, u32, u32)>;

/// Decode an encoded image (PNG or JPEG) with `image::load_from_memory` and
/// convert it to 8-bit RGBA. The result is the crate's; an RGBA image
/// buffer holds four bytes for each of its `width * height` pixels.
#[verifier::external_body]
fn decode_rgba(data: &[u8]) -> (image: Option<(Vec<u8>, u32, u32)>)
    ensures
        match image {
            Some((px, w, h)) => decoded_rgba(data@) == Some((px@, w, h)) && px@.len() == 4 * w * h,
            None => decoded_rgba(data@) is None,
        },
{
    match image::load_from_memory(data) {
        Ok(decoded) => {
            let rgba = decoded.to_rgba8();
            let (w, h) = rgba.dimensions();
            Some((rgba.into_raw(), w, h))
        },
        Err(_) => None,
    }
}

/// An encoded image (album art, a background) as a 32-bit surface image
/// of `width * height` pixels, rows without padding.
pub fn art_image(data: &[u8]) -> (image: Option<(Vec<u8>, u32, u32)>)
    ensures
        match image {
            Some((px, w, h)) => decoded_rgba(data@) matches Some((rgba, dw, dh)) && w == dw && h
                == dh && px@ == swapped_red_blue(rgba),
            None => decoded_rgba(data@) is None,
        },
{
    match decode_rgba(data) {
        Some((rgba, w, h)) => {
            proof {
                assert(rgba@.len() % 4 == 0) by {
                    assert((w * h) * 4 == 4 * w * h) by (nonlinear_arith);
                    lemma_fundamental_div_mod_converse(rgba@.len() as int, 4, w * h, 0);
                }
            }
            Some((rgba_to_bgra(rgba.as_slice()), w, h))
        },
        None => None,
    }
}

/// Render an SVG document with `resvg` at its own size (`usvg::Tree::from_data`
/// with default options, a `tiny_skia::Pixmap` of the tree's size rounded,
/// `resvg::render`), as 8-bit premultiplied RGBA. Only the layout of the
/// result is stated: four bytes for each of `width * height` pixels. What
/// it draws is left unstated, since a document may refer to files, which
/// are then read from disk.
#[verifier::external_body]
fn render_svg(data: &[u8]) -> (image: Option<(Vec<u8>, u32, u32)>)
    ensures
        image matches Some((px, w, h)) ==> px@.len() == 4 * w * h,
{
    let tree = resvg::usvg::Tree::from_data(data, &resvg::usvg::Options::default()).ok()?;
    let size = tree.size().to_int_size();
    let mut pixmap = resvg::tiny_skia::Pixmap::new(size.width(), size.height())?;
    resvg::render(&tree, resvg::tiny_skia::Transform::default(), &mut pixmap.as_mut());
    let (w, h) = (pixmap.width(), pixmap.height());
    Some((pixmap.take(), w, h))
}

/// An SVG icon as a 32-bit surface image of `width * height` pixels: the
/// rendering with red and blue swapped by `rgba_to_bgra`. What the
/// rendering holds is not stated (see `render_svg`), so neither is the
/// result beyond its layout.
pub fn svg_icon(data: &[u8]) -> (image: Option<(Vec<u8>, u32, u32)>)
    ensures
        image matches Some((px, w, h)) ==> px@.len() == 4 * w * h,
{
    match render_svg(data) {
        Some((rgba, w, h)) => {
            proof {
                assert(rgba@.len() % 4 == 0) by {
                    assert((w * h) * 4 == 4 * w * h) by (nonlinear_arith);
                    lemma_fundamental_div_mod_converse(rgba@.len() as int, 4, w * h, 0);
                }
            }
            let px = rgba_to_bgra(rgba.as_slice());
            assert(px@.len() == rgba@.len());
            Some((px, w, h))
        },
        None => None,
    }
}

/// Swapping red and blue twice gives the image back.
pub proof fn lemma_swap_red_blue_twice(data: Seq<u8>)
    requires
        data.len() % 4 == 0,
    ensures
        swapped_red_blue(swapped_red_blue(data)) == data,
{
    let once = swapped_red_blue(data);
    let twice = swapped_red_blue(once);
    assert forall|i: int| 0 <= i < data.len() implies #[trigger] twice[i] == data[i] by {
        let p = i / 4;
        lemma_fundamental_div_mod_converse(i, 4, p, i % 4);
        assert(i == 4 * p + i % 4) by (nonlinear_arith)
            requires
                i == p * 4 + i % 4,
        ;
        assert(4 * p + 4 <= data.len()) by (nonlinear_arith)
            requires
                0 <= 4 * p + i % 4 < data.len(),
                0 <= i % 4 < 4,
                data.len() % 4 == 0,
                data.len() == 4 * (data.len() / 4),
        ;
        if i % 4 == 0 {
            lemma_fundamental_div_mod_converse(i + 2, 4, p, 2);
        } else if i % 4 == 2 {
            lemma_fundamental_div_mod_converse(i - 2, 4, p, 0);
        }
    }
    assert(twice =~= data);
}

/// How long the uptime line is kept before the uptime is read again, in
/// seconds.
pub const UPTIME_REFRESH_SECS: u64 = 10;

/// Whether the uptime line must be refreshed, given how many seconds ago it
/// was last written (`None`: never).
pub fn uptime_due(since_last_secs: Option<u64>) -> (due: bool)
    ensures
        due == match since_last_secs {
            Some(s) => s >= UPTIME_REFRESH_SECS,
            None => true,
        },
{
    match since_last_secs {
        Some(s) => s >= UPTIME_REFRESH_SECS,
        None => true,
    }
}

/// Whole hours and the minutes past them in an uptime given in seconds.
pub fn uptime_parts(secs: u64) -> (parts: (u64, u64))
    ensures
        parts.0 == secs / 3600,
        parts.1 == (secs % 3600) / 60,
        parts.1 < 60,
        parts.0 * 3600 + parts.1 * 60 <= secs < parts.0 * 3600 + parts.1 * 60 + 60,
{
    (secs / 3600, (secs % 3600) / 60)
}

} // verus!
