//! The video-aware variant of the gallery page: video files get a
//! thumbnail image, a play marker and a `data-type` attribute, so the
//! page script can open them in a player instead of an image view.
use vstd::prelude::*;

use crate::fs_ops::{
    dir_part, dir_part_x, file_name_of, file_name_x, join_path, join_path_x, strip_prefix_x,
};
use crate::gallery::utils::{is_video, spec_is_video};
use crate::html::builder::{
    breadcrumb_x, css_text, date_or_empty_x, modal_text, rel_of, script_text, spec_breadcrumb,
    spec_date_or_empty, spec_header, spec_modal, spec_script, spec_title, spec_toggle, toggle_text,
};
use crate::text::str_eq_str;

verus! {

/// One media card: images and videos share the shape; a video card
/// carries `data-type="video"` and a play marker.
pub open spec fn spec_media_card(
    src: Seq<char>,
    display_src: Seq<char>,
    alt: Seq<char>,
    date: Seq<char>,
    is_vid: bool,
) -> Seq<char> {
    "        <a class=\"photo-card\" data-type=\""@ + (if is_vid {
        "video"@
    } else {
        "image"@
    }) + "\" href=\""@ + src + "\">\n            <img src=\""@ + display_src + "\" alt=\""@ + alt
        + "\">"@ + (if is_vid {
        "<div class=\"play-icon\">&#9654;</div>"@
    } else {
        Seq::<char>::empty()
    }) + "\n            <span class=\"date\">"@ + date + "</span>\n        </a>\n"@
}

/// Renders one media card.
pub fn generate_photo_html(
    src: &str,
    display_src: &str,
    alt: &str,
    date: &str,
    is_video: bool,
) -> (r: String)
    ensures
        r@ == spec_media_card(src@, display_src@, alt@, date@, is_video),
{
    let mut out = String::new();
    out.append("        <a class=\"photo-card\" data-type=\"");
    if is_video {
        out.append("video");
    } else {
        out.append("image");
    }
    out.append("\" href=\"");
    out.append(src);
    out.append("\">\n            <img src=\"");
    out.append(display_src);
    out.append("\" alt=\"");
    out.append(alt);
    out.append("\">");
    if is_video {
        out.append("<div class=\"play-icon\">&#9654;</div>");
    }
    out.append("\n            <span class=\"date\">");
    out.append(date);
    out.append("</span>\n        </a>\n");
    proof {
        assert(out@ =~= spec_media_card(src@, display_src@, alt@, date@, is_video));
    }
    out
}

/// The thumbnail path of a video, next to it in a `.thumbnails`
/// directory: `<dir>/.thumbnails/<name>.jpg`.
pub open spec fn spec_thumb_path(image: Seq<char>) -> Seq<char> {
    let d = dir_part(image);
    (if d.len() > 0 {
        d + "/"@
    } else {
        Seq::<char>::empty()
    }) + ".thumbnails/"@ + file_name_of(image) + ".jpg"@
}

/// Renders the thumbnail path of a video.
pub fn thumbnail_path(image: &str) -> (r: String)
    ensures
        r@ == spec_thumb_path(image@),
{
    let d = dir_part_x(image);
    let name = file_name_x(image);
    let mut out = String::new();
    if d.unicode_len() > 0 {
        out.append(d.as_str());
        out.append("/");
    }
    out.append(".thumbnails/");
    out.append(name.as_str());
    out.append(".jpg");
    proof {
        assert(out@ =~= spec_thumb_path(image@));
    }
    out
}

/// Cards of the directly contained media files: videos display their
/// thumbnail, images themselves; the file name links to the media.
pub open spec fn spec_media_html(
    media: Seq<Seq<char>>,
    cur: Seq<char>,
    root: Seq<char>,
) -> Seq<char>
    decreases media.len(),
{
    if media.len() == 0 {
        Seq::empty()
    } else {
        let m = media.last();
        let full = join_path(cur, m);
        let name = file_name_of(m);
        let is_vid = spec_is_video(full);
        spec_media_html(media.drop_last(), cur, root) + spec_media_card(
            name,
            if is_vid {
                ".thumbnails/"@ + name + ".jpg"@
            } else {
                name
            },
            name,
            spec_date_or_empty(full, root),
            is_vid,
        )
    }
}

/// Renders the cards of the directly contained media files.
pub fn generate_images_html(media: &Vec<String>, current_dir: &str, root_path: &str) -> (r: String)
    ensures
        r@ == spec_media_html(media.deep_view(), current_dir@, root_path@),
{
    let mut out = String::new();
    let mut i: usize = 0;
    proof {
        assert(media.deep_view().take(0) =~= Seq::<Seq<char>>::empty());
    }
    while i < media.len()
        invariant
            i <= media.len(),
            out@ == spec_media_html(media.deep_view().take(i as int), current_dir@, root_path@),
        decreases media.len() - i,
    {
        let m = &media[i];
        let full = join_path_x(current_dir, m.as_str());
        let name = file_name_x(m.as_str());
        let vid = is_video(full.as_str());
        let display: String = if vid {
            let mut t = String::from_str(".thumbnails/");
            t.append(name.as_str());
            t.append(".jpg");
            proof {
                assert(t@ =~= ".thumbnails/"@ + name@ + ".jpg"@);
            }
            t
        } else {
            name.clone()
        };
        let date = date_or_empty_x(full.as_str(), root_path);
        let card = generate_photo_html(
            name.as_str(),
            display.as_str(),
            name.as_str(),
            date.as_str(),
            vid,
        );
        out.append(card.as_str());
        proof {
            assert(media.deep_view().take(i + 1).drop_last() =~= media.deep_view().take(i as int));
            assert(media.deep_view().take(i + 1).last() == media.deep_view()[i as int]);
            assert(media.deep_view()[i as int] == m@);
        }
        i = i + 1;
    }
    proof {
        assert(media.deep_view().take(media.len() as int) =~= media.deep_view());
    }
    out
}

/// Cards of the flattened month view: each media file of a day
/// subdirectory, linked by its day-relative path; videos display their
/// thumbnail.
pub open spec fn spec_flattened_media(
    flat: Seq<Seq<char>>,
    cur: Seq<char>,
    root: Seq<char>,
) -> Seq<char>
    decreases flat.len(),
{
    if flat.len() == 0 {
        Seq::empty()
    } else {
        let m = flat.last();
        let full = join_path(cur, m);
        let is_vid = spec_is_video(full);
        spec_flattened_media(flat.drop_last(), cur, root) + spec_media_card(
            m,
            if is_vid {
                spec_thumb_path(m)
            } else {
                m
            },
            file_name_of(m),
            spec_date_or_empty(full, root),
            is_vid,
        )
    }
}

fn flattened_media_x(flat: &Vec<String>, current_dir: &str, root_path: &str) -> (r: String)
    ensures
        r@ == spec_flattened_media(flat.deep_view(), current_dir@, root_path@),
{
    let mut out = String::new();
    let mut i: usize = 0;
    proof {
        assert(flat.deep_view().take(0) =~= Seq::<Seq<char>>::empty());
    }
    while i < flat.len()
        invariant
            i <= flat.len(),
            out@ == spec_flattened_media(flat.deep_view().take(i as int), current_dir@, root_path@),
        decreases flat.len() - i,
    {
        let m = &flat[i];
        let full = join_path_x(current_dir, m.as_str());
        let name = file_name_x(m.as_str());
        let vid = is_video(full.as_str());
        let display: String = if vid {
            thumbnail_path(m.as_str())
        } else {
            m.clone()
        };
        let date = date_or_empty_x(full.as_str(), root_path);
        let card = generate_photo_html(
            m.as_str(),
            display.as_str(),
            name.as_str(),
            date.as_str(),
            vid,
        );
        out.append(card.as_str());
        proof {
            assert(flat.deep_view().take(i + 1).drop_last() =~= flat.deep_view().take(i as int));
            assert(flat.deep_view().take(i + 1).last() == flat.deep_view()[i as int]);
            assert(flat.deep_view()[i as int] == m@);
        }
        i = i + 1;
    }
    proof {
        assert(flat.deep_view().take(flat.len() as int) =~= flat.deep_view());
    }
    out
}

/// The whole video-aware page for one directory, as one string.
pub open spec fn spec_build_html(
    cur: Seq<char>,
    root: Seq<char>,
    subdirs: Seq<Seq<char>>,
    media: Seq<Seq<char>>,
    flat: Seq<Seq<char>>,
) -> Seq<char> {
    let rel = rel_of(cur, root);
    let is_root = cur == root;
    let title = spec_title(rel);
    let has_flat = flat.len() > 0;
    spec_header(title) + (if has_flat {
        spec_toggle()
    } else {
        Seq::<char>::empty()
    }) + spec_breadcrumb(rel, is_root) + "    <h1>"@ + title + "</h1>\n"@ + (if has_flat {
        "    <div id=\"flattened-gallery\" class=\"gallery\">\n"@ + spec_media_html(
            media,
            cur,
            root,
        ) + spec_flattened_media(flat, cur, root) + "    </div>\n"@
    } else {
        Seq::<char>::empty()
    }) + "    <div id=\"directory-view\" style=\""@ + (if has_flat {
        "display: none;"@
    } else {
        Seq::<char>::empty()
    }) + "\">\n"@ + (if subdirs.len() > 0 {
        "    <h2>Directories</h2>\n    <div class=\"directories\">\n"@
            + crate::html::builder::spec_dir_cards(subdirs) + "    </div>\n"@
    } else {
        Seq::<char>::empty()
    }) + (if media.len() > 0 {
        "    <h2>Photos</h2>\n    <div class=\"gallery\">\n"@ + spec_media_html(media, cur, root)
            + "    </div>\n"@
    } else {
        Seq::<char>::empty()
    }) + "    </div>\n"@ + spec_modal() + "    <script>\n"@ + spec_script() + "    </script>\n"@
        + "</body>\n</html>"@
}

/// Renders the video-aware gallery page of one directory.
#[verifier::rlimit(100)]
pub fn build_html(
    current_dir: &str,
    root_path: &str,
    subdirs: &Vec<String>,
    images: &Vec<String>,
    flattened_images: &Vec<String>,
) -> (r: String)
    ensures
        r@ == spec_build_html(
            current_dir@,
            root_path@,
            subdirs.deep_view(),
            images.deep_view(),
            flattened_images.deep_view(),
        ),
{
    let rel: String = match strip_prefix_x(current_dir, root_path) {
        Some(rl) => rl,
        None => String::new(),
    };
    assert(rel@ == rel_of(current_dir@, root_path@));
    let is_root = str_eq_str(current_dir, root_path);
    let title: String = if rel.unicode_len() == 0 {
        String::from_str("Photo Collection")
    } else {
        rel.clone()
    };
    assert(title@ == spec_title(rel@));
    let has_flat = flattened_images.len() > 0;

    let mut out = String::new();
    out.append("<!DOCTYPE html>\n<html>\n<head>\n<title>");
    out.append(title.as_str());
    out.append("</title>\n<style>\n");
    out.append(css_text());
    out.append("</style>\n</head>\n<body>\n");
    assert(out@ =~= spec_header(title@));
    let ghost acc0 = out@;
    if has_flat {
        out.append(toggle_text());
    }
    let crumbs = breadcrumb_x(rel.as_str(), is_root);
    out.append(crumbs.as_str());
    let ghost p_toggle: Seq<char> = if has_flat {
        spec_toggle()
    } else {
        Seq::<char>::empty()
    };
    let ghost p_flat: Seq<char> = if has_flat {
        "    <div id=\"flattened-gallery\" class=\"gallery\">\n"@ + spec_media_html(
            images.deep_view(),
            current_dir@,
            root_path@,
        ) + spec_flattened_media(flattened_images.deep_view(), current_dir@, root_path@)
            + "    </div>\n"@
    } else {
        Seq::<char>::empty()
    };
    let ghost p_style: Seq<char> = "    <div id=\"directory-view\" style=\""@ + (if has_flat {
        "display: none;"@
    } else {
        Seq::<char>::empty()
    }) + "\">\n"@;
    let ghost p_dirs: Seq<char> = if subdirs.deep_view().len() > 0 {
        "    <h2>Directories</h2>\n    <div class=\"directories\">\n"@
            + crate::html::builder::spec_dir_cards(subdirs.deep_view()) + "    </div>\n"@
    } else {
        Seq::<char>::empty()
    };
    let ghost p_imgs: Seq<char> = if images.deep_view().len() > 0 {
        "    <h2>Photos</h2>\n    <div class=\"gallery\">\n"@ + spec_media_html(
            images.deep_view(),
            current_dir@,
            root_path@,
        ) + "    </div>\n"@
    } else {
        Seq::<char>::empty()
    };
    assert(out@ =~= acc0 + p_toggle + spec_breadcrumb(rel@, is_root));
    let ghost acc1 = out@;
    out.append("    <h1>");
    out.append(title.as_str());
    out.append("</h1>\n");
    assert(out@ =~= acc1 + "    <h1>"@ + title@ + "</h1>\n"@);
    let ghost acc2 = out@;
    if has_flat {
        out.append("    <div id=\"flattened-gallery\" class=\"gallery\">\n");
        let direct = generate_images_html(images, current_dir, root_path);
        out.append(direct.as_str());
        let flat_cards = flattened_media_x(flattened_images, current_dir, root_path);
        out.append(flat_cards.as_str());
        out.append("    </div>\n");
    }
    assert(out@ =~= acc2 + p_flat);
    let ghost acc3 = out@;
    out.append("    <div id=\"directory-view\" style=\"");
    if has_flat {
        out.append("display: none;");
    }
    out.append("\">\n");
    assert(out@ =~= acc3 + p_style);
    let ghost acc4 = out@;
    if subdirs.len() > 0 {
        out.append("    <h2>Directories</h2>\n    <div class=\"directories\">\n");
        let cards = crate::html::builder::dir_cards_x(subdirs);
        out.append(cards.as_str());
        out.append("    </div>\n");
    }
    assert(out@ =~= acc4 + p_dirs);
    let ghost acc5 = out@;
    if images.len() > 0 {
        out.append("    <h2>Photos</h2>\n    <div class=\"gallery\">\n");
        let direct = generate_images_html(images, current_dir, root_path);
        out.append(direct.as_str());
        out.append("    </div>\n");
    }
    assert(out@ =~= acc5 + p_imgs);
    let ghost acc6 = out@;
    out.append("    </div>\n");
    out.append(modal_text());
    out.append("    <script>\n");
    out.append(script_text());
    out.append("    </script>\n");
    out.append("</body>\n</html>");
    proof {
        assert(out@ =~= acc6 + "    </div>\n"@ + spec_modal() + "    <script>\n"@ + spec_script()
            + "    </script>\n"@ + "</body>\n</html>"@);
        assert(out@ =~= spec_build_html(
            current_dir@,
            root_path@,
            subdirs.deep_view(),
            images.deep_view(),
            flattened_images.deep_view(),
        ));
    }
    out
}

} // verus!
