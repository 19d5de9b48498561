//! Images as they are shown.

use vstd::prelude::*;

use crate::hits;
use crate::hits::SizingPreference;
use crate::model::Hit;
use crate::office::PreviewCapabilities;
use crate::paths;
use crate::sizes;
use crate::text;

verus! {

/// Whether a lowercase extension is that of an image.
pub open spec fn image_extension(e: Seq<char>) -> bool {
    e == "png"@ || e == "jpg"@ || e == "jpeg"@ || e == "gif"@ || e == "webp"@ || e == "avif"@ || e
        == "bmp"@ || e == "tiff"@ || e == "tif"@ || e == "svg"@ || e == "ico"@ || e == "heic"@ || e
        == "heif"@ || e == "jxl"@ || e == "cr2"@ || e == "cr3"@ || e == "nef"@ || e == "nrw"@ || e
        == "arw"@ || e == "srf"@ || e == "sr2"@ || e == "dng"@ || e == "raf"@ || e == "orf"@ || e
        == "rw2"@ || e == "pef"@
}

/// Whether a lowercase extension is that of an image that may move.
pub open spec fn animated_extension(e: Seq<char>) -> bool {
    e == "gif"@ || e == "webp"@
}

/// Whether a lowercase extension is that of a vector image.
pub open spec fn vector_extension(e: Seq<char>) -> bool {
    e == "svg"@
}

/// Whether a lowercase extension is that of an image.
pub fn is_image_extension(e: &str) -> (r: bool)
    ensures
        r == image_extension(e@),
{
    text::text_eq(e, "png") || text::text_eq(e, "jpg") || text::text_eq(e, "jpeg")
        || text::text_eq(e, "gif") || text::text_eq(e, "webp") || text::text_eq(e, "avif")
        || text::text_eq(e, "bmp") || text::text_eq(e, "tiff") || text::text_eq(e, "tif")
        || text::text_eq(e, "svg") || text::text_eq(e, "ico") || text::text_eq(e, "heic")
        || text::text_eq(e, "heif") || text::text_eq(e, "jxl") || text::text_eq(e, "cr2")
        || text::text_eq(e, "cr3") || text::text_eq(e, "nef") || text::text_eq(e, "nrw")
        || text::text_eq(e, "arw") || text::text_eq(e, "srf") || text::text_eq(e, "sr2")
        || text::text_eq(e, "dng") || text::text_eq(e, "raf") || text::text_eq(e, "orf")
        || text::text_eq(e, "rw2") || text::text_eq(e, "pef")
}

/// Shows images.
pub struct ImagePreview;

/// How well images suit a hit: by its extension, or else by its label.
pub open spec fn score(hit: Hit) -> u32 {
    match hits::action_path(hit.action) {
        Some(p) => if paths::lower_extension_of(p) matches Some(e) && image_extension(e) {
            80
        } else if hits::label_begins(hit, "image/"@) {
            50
        } else {
            0
        },
        None => 0,
    }
}

impl ImagePreview {
    /// The name of the preview.
    pub fn id(&self) -> (r: &'static str)
        ensures
            r@ == "image"@,
    {
        "image"
    }

    /// How well the preview suits a hit.
    pub fn match_score(&self, hit: &Hit) -> (r: u32)
        ensures
            r == score(*hit),
    {
        match hits::file_path(hit) {
            Some(path) => {
                match paths::lower_extension(path.as_str()) {
                    Some(e) => {
                        if is_image_extension(e.as_str()) {
                            return 80;
                        }
                    },
                    None => {},
                }
                if hits::label_starts_with(hit, "image/") {
                    50
                } else {
                    0
                }
            },
            None => 0,
        }
    }

    /// How the window is sized.
    pub fn sizing(&self) -> (r: SizingPreference)
        ensures
            r == SizingPreference::FixedCap,
    {
        SizingPreference::FixedCap
    }

    /// What the preview can do.
    pub fn capabilities(&self) -> (r: PreviewCapabilities)
        ensures
            r == (PreviewCapabilities {
                text_selection: false,
                text_search: false,
                paginated: false,
                zoomable: true,
            }),
    {
        PreviewCapabilities {
            text_selection: false,
            text_search: false,
            paginated: false,
            zoomable: true,
        }
    }
}

/// What shows an image.
#[derive(Clone, Copy, Debug, PartialEq, Eq, Structural)]
pub enum ImageRoute {
    /// A picture that is scaled as the window is.
    Vector,
    /// A stream that is played again and again.
    Animated,
    /// A still image: the canvas, or a picture where it cannot be decoded.
    Still,
}

/// What shows the image at a path.
pub open spec fn route_of(path: Seq<char>) -> ImageRoute {
    match paths::lower_extension_of(path) {
        Some(e) => if vector_extension(e) {
            ImageRoute::Vector
        } else if animated_extension(e) {
            ImageRoute::Animated
        } else {
            ImageRoute::Still
        },
        None => ImageRoute::Still,
    }
}

/// What shows the image at a path.
pub fn route(path: &str) -> (r: ImageRoute)
    ensures
        r == route_of(path@),
{
    match paths::lower_extension(path) {
        Some(e) => {
            if text::text_eq(e.as_str(), "svg") {
                ImageRoute::Vector
            } else if text::text_eq(e.as_str(), "gif") || text::text_eq(e.as_str(), "webp") {
                ImageRoute::Animated
            } else {
                ImageRoute::Still
            }
        },
        None => ImageRoute::Still,
    }
}

/// The widgets that show an image.
#[derive(Clone, Copy, Debug, PartialEq, Eq, Structural)]
pub enum ImageWidget {
    /// The canvas, with its toolbar.
    Canvas,
    /// A picture of the file.
    PictureOfFile,
    /// A picture of a stream.
    PictureOfStream,
}

/// The widgets that show an image. `decoded` says whether a still image
/// could be decoded.
pub fn widget_for(route: ImageRoute, decoded: bool) -> (r: ImageWidget)
    ensures
        r == (match route {
            ImageRoute::Vector => ImageWidget::PictureOfFile,
            ImageRoute::Animated => ImageWidget::PictureOfStream,
            ImageRoute::Still => if decoded {
                ImageWidget::Canvas
            } else {
                ImageWidget::PictureOfFile
            },
        }),
{
    match route {
        ImageRoute::Vector => ImageWidget::PictureOfFile,
        ImageRoute::Animated => ImageWidget::PictureOfStream,
        ImageRoute::Still => if decoded {
            ImageWidget::Canvas
        } else {
            ImageWidget::PictureOfFile
        },
    }
}

/// The line below an image: its dimensions, where they are known, and the
/// size of its file.
pub open spec fn footer_of(size: Option<u64>, intrinsic: Option<(i32, i32)>) -> Seq<char> {
    let bytes = match size {
        Some(n) => n,
        None => 0,
    };
    match intrinsic {
        Some((w, h)) => text::decimal_int(w as int) + " × "@ + text::decimal_int(h as int)
            + "   ·   "@ + sizes::binary_size(bytes as nat),
        None => sizes::binary_size(bytes as nat),
    }
}

/// The line below an image.
pub fn format_footer(size: Option<u64>, intrinsic: Option<(i32, i32)>) -> (r: String)
    ensures
        r@ == footer_of(size, intrinsic),
{
    let bytes: u64 = match size {
        Some(n) => n,
        None => 0,
    };
    let size_text = sizes::human_bytes(bytes);
    match intrinsic {
        Some((w, h)) => {
            let mut s = text::decimal_i64(w as i64);
            s.push_str(" × ");
            s.push_str(text::decimal_i64(h as i64).as_str());
            s.push_str("   ·   ");
            s.push_str(size_text.as_str());
            s
        },
        None => size_text,
    }
}

/// Law: every image that may move, and every vector image, is an image.
pub proof fn law_special_images_are_images(e: Seq<char>)
    ensures
        animated_extension(e) || vector_extension(e) ==> image_extension(e),
{
}

/// Law: an image is shown where its name or its label says that it is one,
/// its name counting for more; what opens no file is not shown.
pub proof fn law_images_are_shown(hit: Hit)
    ensures
        score(hit) > 0 <==> (hits::action_path(hit.action) matches Some(p) && (hits::label_begins(
            hit,
            "image/"@,
        ) || (paths::lower_extension_of(p) matches Some(e) && image_extension(e)))),
        hits::action_path(hit.action) matches Some(p) ==> (paths::lower_extension_of(
            p,
        ) matches Some(e) ==> image_extension(e) ==> score(hit) == 80),
        score(hit) <= 80,
{
}

/// Law: the line below an image gives its width and its height, in this
/// order, and the size of its file.
pub proof fn law_the_footer_gives_the_dimensions(n: u64, w: i32, h: i32)
    ensures
        (text::decimal_int(w as int) + " × "@ + text::decimal_int(h as int)).is_prefix_of(
            footer_of(Some(n), Some((w, h))),
        ),
        sizes::binary_size(n as nat).is_suffix_of(footer_of(Some(n), Some((w, h)))),
        footer_of(Some(n), None) == sizes::binary_size(n as nat),
{
    let s = footer_of(Some(n), Some((w, h)));
    let head = text::decimal_int(w as int) + " × "@ + text::decimal_int(h as int);
    let tail = sizes::binary_size(n as nat);
    assert(s.subrange(0, head.len() as int) =~= head);
    assert(s.subrange(s.len() - tail.len(), s.len() as int) =~= tail);
}

/// Law: vector images are scaled with the window, images that may move are
/// played, and all others stand still.
pub proof fn law_images_take_their_route(path: Seq<char>, e: Seq<char>)
    ensures
        paths::lower_extension_of(path) == Some("svg"@) ==> route_of(path) is Vector,
        paths::lower_extension_of(path) == Some("gif"@) ==> route_of(path) is Animated,
        paths::lower_extension_of(path) == Some("webp"@) ==> route_of(path) is Animated,
        paths::lower_extension_of(path) is None ==> route_of(path) is Still,
        paths::lower_extension_of(path) == Some(e) && e != "svg"@ && e != "gif"@ && e != "webp"@
            ==> route_of(path) is Still,
{
    reveal_strlit("svg");
    reveal_strlit("gif");
    reveal_strlit("webp");
    assert("svg"@[0] == 's' && "gif"@[0] == 'g' && "webp"@[0] == 'w');
}

/// Law: images are told by these extensions and no others.
pub proof fn law_image_files_are_known(e: Seq<char>)
    ensures
        image_extension(e) <==> seq![
            "png"@, "jpg"@, "jpeg"@, "gif"@, "webp"@, "avif"@,
            "bmp"@, "tiff"@, "tif"@, "svg"@, "ico"@, "heic"@,
            "heif"@, "jxl"@, "cr2"@, "cr3"@, "nef"@, "nrw"@,
            "arw"@, "srf"@, "sr2"@, "dng"@, "raf"@, "orf"@,
            "rw2"@, "pef"@,
        ].contains(e),
{
    let known = seq![
        "png"@, "jpg"@, "jpeg"@, "gif"@, "webp"@, "avif"@,
        "bmp"@, "tiff"@, "tif"@, "svg"@, "ico"@, "heic"@,
        "heif"@, "jxl"@, "cr2"@, "cr3"@, "nef"@, "nrw"@,
        "arw"@, "srf"@, "sr2"@, "dng"@, "raf"@, "orf"@,
        "rw2"@, "pef"@,
    ];
    assert(known[0] == "png"@ && known[1] == "jpg"@ && known[2] == "jpeg"@);
    assert(known[3] == "gif"@ && known[4] == "webp"@ && known[5] == "avif"@);
    assert(known[6] == "bmp"@ && known[7] == "tiff"@ && known[8] == "tif"@);
    assert(known[9] == "svg"@ && known[10] == "ico"@ && known[11] == "heic"@);
    assert(known[12] == "heif"@ && known[13] == "jxl"@ && known[14] == "cr2"@);
    assert(known[15] == "cr3"@ && known[16] == "nef"@ && known[17] == "nrw"@);
    assert(known[18] == "arw"@ && known[19] == "srf"@ && known[20] == "sr2"@);
    assert(known[21] == "dng"@ && known[22] == "raf"@ && known[23] == "orf"@);
    assert(known[24] == "rw2"@ && known[25] == "pef"@);
    if image_extension(e) {
        assert(known.contains(e));
    }
    if known.contains(e) {
        let k = choose|k: int| 0 <= k < known.len() && known[k] == e;
        assert(image_extension(known[k]));
    }
}

} // verus!
