//! Renders one gallery page: breadcrumbs, subdirectory cards, photo
//! cards, and an optional flattened month view.  The whole page is pure
//! string assembly; its contract states the exact output.
use vstd::prelude::*;

use crate::fs_ops::{file_name_of, file_name_x, split_path, split_path_x, strip_prefix_path, strip_prefix_x};
use crate::html::utils::{get_date_from_path, spec_date_from_path};
use crate::text::str_eq_str;

verus! {

/// The page style sheet.
pub open spec fn spec_css() -> Seq<char> {
    ".gallery { display: grid; grid-template-columns: repeat(auto-fill, minmax(180px, 1fr)); gap: 8px; }\n.photo-card img { width: 100%; display: block; }\n.play-icon { position: absolute; font-size: 2em; }\n"@
}

pub(crate) fn css_text() -> (r: &'static str)
    ensures
        r@ == spec_css(),
{
    ".gallery { display: grid; grid-template-columns: repeat(auto-fill, minmax(180px, 1fr)); gap: 8px; }\n.photo-card img { width: 100%; display: block; }\n.play-icon { position: absolute; font-size: 2em; }\n"
}

/// The view-toggle button shown when a flattened view exists.
pub open spec fn spec_toggle() -> Seq<char> {
    "    <button id=\"toggle-btn\" onclick=\"toggleView()\">Show Days</button>\n"@
}

pub(crate) fn toggle_text() -> (r: &'static str)
    ensures
        r@ == spec_toggle(),
{
    "    <button id=\"toggle-btn\" onclick=\"toggleView()\">Show Days</button>\n"
}

/// The image modal skeleton.
pub open spec fn spec_modal() -> Seq<char> {
    "    <div id=\"modal\" class=\"modal\" onclick=\"closeModal()\"><img id=\"modal-img\"></div>\n"@
}

pub(crate) fn modal_text() -> (r: &'static str)
    ensures
        r@ == spec_modal(),
{
    "    <div id=\"modal\" class=\"modal\" onclick=\"closeModal()\"><img id=\"modal-img\"></div>\n"
}

/// The page script: view toggling and the modal.
pub open spec fn spec_script() -> Seq<char> {
    "function toggleView() {\n  var d = document.getElementById('directory-view');\n  var f = document.getElementById('flattened-gallery');\n  var hidden = d.style.display === 'none';\n  d.style.display = hidden ? '' : 'none';\n  if (f) { f.style.display = hidden ? 'none' : ''; }\n}\nfunction closeModal() {\n  document.getElementById('modal').style.display = 'none';\n}\n"@
}

pub(crate) fn script_text() -> (r: &'static str)
    ensures
        r@ == spec_script(),
{
    "function toggleView() {\n  var d = document.getElementById('directory-view');\n  var f = document.getElementById('flattened-gallery');\n  var hidden = d.style.display === 'none';\n  d.style.display = hidden ? '' : 'none';\n  if (f) { f.style.display = hidden ? 'none' : ''; }\n}\nfunction closeModal() {\n  document.getElementById('modal').style.display = 'none';\n}\n"
}

/// The page head and opening of the body.
pub open spec fn spec_header(title: Seq<char>) -> Seq<char> {
    "<!DOCTYPE html>\n<html>\n<head>\n<title>"@ + title + "</title>\n<style>\n"@ + spec_css()
        + "</style>\n</head>\n<body>\n"@
}

/// `n` times `../`.
pub open spec fn ups(n: int) -> Seq<char>
    decreases n,
{
    if n <= 0 {
        Seq::empty()
    } else {
        "../"@ + ups(n - 1)
    }
}

proof fn lemma_ups_snoc(n: int)
    requires
        n >= 0,
    ensures
        ups(n) + "../"@ =~= ups(n + 1),
    decreases n,
{
    if n == 0 {
        assert(ups(0) + "../"@ =~= "../"@ + ups(0));
    } else {
        lemma_ups_snoc(n - 1);
        assert(ups(n) + "../"@ =~= "../"@ + (ups(n - 1) + "../"@));
    }
}

/// Renders `n` times `../`.
pub(crate) fn ups_x(n: usize) -> (r: String)
    ensures
        r@ == ups(n as int),
{
    let mut out = String::new();
    let mut k: usize = 0;
    while k < n
        invariant
            k <= n,
            out@ == ups(k as int),
        decreases n - k,
    {
        out.append("../");
        proof {
            lemma_ups_snoc(k as int);
        }
        k = k + 1;
    }
    out
}

/// The current directory relative to the root; empty when it is the root
/// or lies outside it.
pub open spec fn rel_of(cur: Seq<char>, root: Seq<char>) -> Seq<char> {
    match strip_prefix_path(cur, root) {
        Some(r) => r,
        None => Seq::empty(),
    }
}

/// The page title: the relative path, or a fixed name for the root.
pub open spec fn spec_title(rel: Seq<char>) -> Seq<char> {
    if rel.len() == 0 {
        "Photo Collection"@
    } else {
        rel
    }
}

/// One breadcrumb element: a link for inner path segments, plain text
/// for the last one.
pub open spec fn crumb_item(comps: Seq<Seq<char>>, i: int) -> Seq<char> {
    if i == comps.len() - 1 {
        "<span>"@ + comps[i] + "</span>"@
    } else {
        "<a href=\""@ + ups(comps.len() - 1 - i) + "index.html\">"@ + comps[i]
            + "</a> <span>/</span> "@
    }
}

/// The first `i` breadcrumb elements.
pub open spec fn spec_crumbs(comps: Seq<Seq<char>>, i: int) -> Seq<char>
    decreases i,
{
    if i <= 0 {
        Seq::empty()
    } else {
        spec_crumbs(comps, i - 1) + crumb_item(comps, i - 1)
    }
}

/// The breadcrumb line: a link home, then one element per path segment.
pub open spec fn spec_breadcrumb(rel: Seq<char>, is_root: bool) -> Seq<char> {
    let comps = split_path(rel);
    "    <div class=\"breadcrumb\">\n        <a href=\""@ + (if is_root {
        Seq::<char>::empty()
    } else {
        ups(comps.len() as int)
    }) + "collection.html\">Home</a>"@ + (if is_root {
        Seq::<char>::empty()
    } else {
        " <span>/</span> "@ + spec_crumbs(comps, comps.len() as int)
    }) + "\n    </div>\n"@
}

/// Renders the breadcrumb line for a directory at `rel` below the root.
pub(crate) fn breadcrumb_x(rel: &str, is_root: bool) -> (r: String)
    ensures
        r@ == spec_breadcrumb(rel@, is_root),
{
    let comps = split_path_x(rel);
    let mut out = String::new();
    out.append("    <div class=\"breadcrumb\">\n        <a href=\"");
    if !is_root {
        let u = ups_x(comps.len());
        out.append(u.as_str());
    }
    out.append("collection.html\">Home</a>");
    if !is_root {
        out.append(" <span>/</span> ");
        let mut i: usize = 0;
        let ghost crumb_base = out@;
        while i < comps.len()
            invariant
                i <= comps.len(),
                out@ == crumb_base + spec_crumbs(comps.deep_view(), i as int),
            decreases comps.len() - i,
        {
            let name = &comps[i];
            proof {
                assert(comps.deep_view()[i as int] == name@);
            }
            if i + 1 == comps.len() {
                out.append("<span>");
                out.append(name.as_str());
                out.append("</span>");
            } else {
                out.append("<a href=\"");
                let u = ups_x(comps.len() - 1 - i);
                out.append(u.as_str());
                out.append("index.html\">");
                out.append(name.as_str());
                out.append("</a> <span>/</span> ");
            }
            proof {
                assert(out@ =~= crumb_base + (spec_crumbs(comps.deep_view(), i as int)
                    + crumb_item(comps.deep_view(), i as int)));
            }
            i = i + 1;
        }
    }
    out.append("\n    </div>\n");
    proof {
        assert(out@ =~= spec_breadcrumb(rel@, is_root));
    }
    out
}

/// A directory gets a page when it has children or is the root itself.
pub fn should_emit_page(n_subdirs: usize, n_media: usize, is_root: bool) -> (r: bool)
    ensures
        r == (n_subdirs > 0 || n_media > 0 || is_root),
{
    n_subdirs > 0 || n_media > 0 || is_root
}

/// The root's page is the collection overview; every other directory
/// gets an index page.
pub fn page_file_name(is_root: bool) -> (r: &'static str)
    ensures
        is_root ==> r@ == "collection.html"@,
        !is_root ==> r@ == "index.html"@,
{
    if is_root {
        "collection.html"
    } else {
        "index.html"
    }
}

/// A flattened month view is collected at depth 2 (the month level),
/// when day subdirectories exist.
pub fn wants_flattened_view(depth: usize, n_subdirs: usize) -> (r: bool)
    ensures
        r == (depth == 2 && n_subdirs > 0),
{
    depth == 2 && n_subdirs > 0
}

/// One photo card.
pub open spec fn spec_photo_card(
    src: Seq<char>,
    display_src: Seq<char>,
    alt: Seq<char>,
    date: Seq<char>,
) -> Seq<char> {
    "        <a class=\"photo-card\" href=\""@ + src + "\">\n            <img src=\""@ + display_src
        + "\" alt=\""@ + alt + "\">\n            <span class=\"date\">"@ + date
        + "</span>\n        </a>\n"@
}

/// Renders one photo card.
pub fn generate_photo_html(src: &str, display_src: &str, alt: &str, date: &str) -> (r: String)
    ensures
        r@ == spec_photo_card(src@, display_src@, alt@, date@),
{
    let mut out = String::new();
    out.append("        <a class=\"photo-card\" href=\"");
    out.append(src);
    out.append("\">\n            <img src=\"");
    out.append(display_src);
    out.append("\" alt=\"");
    out.append(alt);
    out.append("\">\n            <span class=\"date\">");
    out.append(date);
    out.append("</span>\n        </a>\n");
    proof {
        assert(out@ =~= spec_photo_card(src@, display_src@, alt@, date@));
    }
    out
}

/// The displayed date of a destination path, or nothing.
pub open spec fn spec_date_or_empty(p: Seq<char>, root: Seq<char>) -> Seq<char> {
    match spec_date_from_path(p, root) {
        Some(d) => d,
        None => Seq::empty(),
    }
}

/// Cards of the directly contained images: the file name serves as
/// link, source and alternative text; the date is re-derived from the
/// image's path below the root.
pub open spec fn spec_images_html(images: Seq<Seq<char>>, root: Seq<char>) -> Seq<char>
    decreases images.len(),
{
    if images.len() == 0 {
        Seq::empty()
    } else {
        spec_images_html(images.drop_last(), root) + spec_photo_card(
            file_name_of(images.last()),
            file_name_of(images.last()),
            file_name_of(images.last()),
            spec_date_or_empty(images.last(), root),
        )
    }
}

pub(crate) fn date_or_empty_x(p: &str, root: &str) -> (r: String)
    ensures
        r@ == spec_date_or_empty(p@, root@),
{
    match get_date_from_path(p, root) {
        Some(d) => d,
        None => String::new(),
    }
}

/// Renders the cards of the directly contained images.
pub fn generate_images_html(images: &Vec<String>, root_path: &str) -> (r: String)
    ensures
        r@ == spec_images_html(images.deep_view(), root_path@),
{
    let mut out = String::new();
    let mut i: usize = 0;
    proof {
        assert(images.deep_view().take(0) =~= Seq::<Seq<char>>::empty());
    }
    while i < images.len()
        invariant
            i <= images.len(),
            out@ == spec_images_html(images.deep_view().take(i as int), root_path@),
        decreases images.len() - i,
    {
        let img = &images[i];
        let filename = file_name_x(img.as_str());
        let date = date_or_empty_x(img.as_str(), root_path);
        let card = generate_photo_html(
            filename.as_str(),
            filename.as_str(),
            filename.as_str(),
            date.as_str(),
        );
        out.append(card.as_str());
        proof {
            assert(images.deep_view().take(i + 1).drop_last() =~= images.deep_view().take(
                i as int,
            ));
            assert(images.deep_view().take(i + 1).last() == images.deep_view()[i as int]);
            assert(images.deep_view()[i as int] == img@);
        }
        i = i + 1;
    }
    proof {
        assert(images.deep_view().take(images.len() as int) =~= images.deep_view());
    }
    out
}

/// Cards of the flattened month view: each image of a day subdirectory,
/// linked by its day-relative path.
pub open spec fn spec_flattened_cards(
    flat: Seq<Seq<char>>,
    cur: Seq<char>,
    root: Seq<char>,
) -> Seq<char>
    decreases flat.len(),
{
    if flat.len() == 0 {
        Seq::empty()
    } else {
        spec_flattened_cards(flat.drop_last(), cur, root) + spec_photo_card(
            flat.last(),
            flat.last(),
            file_name_of(flat.last()),
            spec_date_or_empty(crate::fs_ops::join_path(cur, flat.last()), root),
        )
    }
}

fn flattened_cards_x(flat: &Vec<String>, current_dir: &str, root_path: &str) -> (r: String)
    ensures
        r@ == spec_flattened_cards(flat.deep_view(), current_dir@, root_path@),
{
    let mut out = String::new();
    let mut i: usize = 0;
    proof {
        assert(flat.deep_view().take(0) =~= Seq::<Seq<char>>::empty());
    }
    while i < flat.len()
        invariant
            i <= flat.len(),
            out@ == spec_flattened_cards(flat.deep_view().take(i as int), current_dir@, root_path@),
        decreases flat.len() - i,
    {
        let img = &flat[i];
        let filename = file_name_x(img.as_str());
        let full = crate::fs_ops::join_path_x(current_dir, img.as_str());
        let date = date_or_empty_x(full.as_str(), root_path);
        let card = generate_photo_html(
            img.as_str(),
            img.as_str(),
            filename.as_str(),
            date.as_str(),
        );
        out.append(card.as_str());
        proof {
            assert(flat.deep_view().take(i + 1).drop_last() =~= flat.deep_view().take(i as int));
            assert(flat.deep_view().take(i + 1).last() == flat.deep_view()[i as int]);
            assert(flat.deep_view()[i as int] == img@);
        }
        i = i + 1;
    }
    proof {
        assert(flat.deep_view().take(flat.len() as int) =~= flat.deep_view());
    }
    out
}

/// One subdirectory card per child directory, linking to its page.
pub open spec fn spec_dir_cards(subdirs: Seq<Seq<char>>) -> Seq<char>
    decreases subdirs.len(),
{
    if subdirs.len() == 0 {
        Seq::empty()
    } else {
        spec_dir_cards(subdirs.drop_last()) + "        <a href=\""@ + file_name_of(subdirs.last())
            + "/index.html\" class=\"dir-card\">"@ + file_name_of(subdirs.last()) + "</a>\n"@
    }
}

pub(crate) fn dir_cards_x(subdirs: &Vec<String>) -> (r: String)
    ensures
        r@ == spec_dir_cards(subdirs.deep_view()),
{
    let mut out = String::new();
    let mut i: usize = 0;
    proof {
        assert(subdirs.deep_view().take(0) =~= Seq::<Seq<char>>::empty());
    }
    while i < subdirs.len()
        invariant
            i <= subdirs.len(),
            out@ == spec_dir_cards(subdirs.deep_view().take(i as int)),
        decreases subdirs.len() - i,
    {
        let sub = &subdirs[i];
        let name = file_name_x(sub.as_str());
        out.append("        <a href=\"");
        out.append(name.as_str());
        out.append("/index.html\" class=\"dir-card\">");
        out.append(name.as_str());
        out.append("</a>\n");
        proof {
            assert(subdirs.deep_view().take(i + 1).drop_last() =~= subdirs.deep_view().take(
                i as int,
            ));
            assert(subdirs.deep_view().take(i + 1).last() == subdirs.deep_view()[i as int]);
            assert(subdirs.deep_view()[i as int] == sub@);
        }
        i = i + 1;
    }
    proof {
        assert(subdirs.deep_view().take(subdirs.len() as int) =~= subdirs.deep_view());
    }
    out
}

/// The whole page for one directory, as one string.
pub open spec fn spec_build_html(
    cur: Seq<char>,
    root: Seq<char>,
    subdirs: Seq<Seq<char>>,
    images: Seq<Seq<char>>,
    flat: Seq<Seq<char>>,
) -> Seq<char> {
    let rel = rel_of(cur, root);
    let is_root = cur == root;
    let title = spec_title(rel);
    let has_flat = flat.len() > 0;
    spec_header(title) + (if has_flat {
        spec_toggle()
    } else {
        Seq::<char>::empty()
    }) + spec_breadcrumb(rel, is_root) + "    <h1>"@ + title + "</h1>\n"@ + (if has_flat {
        "    <div id=\"flattened-gallery\" class=\"gallery\">\n"@ + spec_images_html(images, root)
            + spec_flattened_cards(flat, cur, root) + "    </div>\n"@
    } else {
        Seq::<char>::empty()
    }) + "    <div id=\"directory-view\" style=\""@ + (if has_flat {
        "display: none;"@
    } else {
        Seq::<char>::empty()
    }) + "\">\n"@ + (if subdirs.len() > 0 {
        "    <h2>Directories</h2>\n    <div class=\"directories\">\n"@ + spec_dir_cards(subdirs)
            + "    </div>\n"@
    } else {
        Seq::<char>::empty()
    }) + (if images.len() > 0 {
        "    <h2>Photos</h2>\n    <div class=\"gallery\">\n"@ + spec_images_html(images, root)
            + "    </div>\n"@
    } else {
        Seq::<char>::empty()
    }) + "    </div>\n"@ + spec_modal() + "    <script>\n"@ + spec_script() + "    </script>\n"@
        + "</body>\n</html>"@
}

/// Renders the gallery page of one directory.  `subdirs` and `images`
/// are the directory's children (as paths; only their file names are
/// shown), `flattened_images` the day-relative paths shown in the
/// flattened month view.
#[verifier::rlimit(100)]
pub fn build_html(
    current_dir: &str,
    root_path: &str,
    subdirs: &Vec<String>,
    images: &Vec<String>,
    flattened_images: &Vec<String>,
) -> (r: String)
    ensures
        r@ == spec_build_html(
            current_dir@,
            root_path@,
            subdirs.deep_view(),
            images.deep_view(),
            flattened_images.deep_view(),
        ),
{
    let rel: String = match strip_prefix_x(current_dir, root_path) {
        Some(rl) => rl,
        None => String::new(),
    };
    assert(rel@ == rel_of(current_dir@, root_path@));
    let is_root = str_eq_str(current_dir, root_path);
    let title: String = if rel.unicode_len() == 0 {
        String::from_str("Photo Collection")
    } else {
        rel.clone()
    };
    assert(title@ == spec_title(rel@));
    let has_flat = flattened_images.len() > 0;

    let mut out = String::new();
    // Head.
    out.append("<!DOCTYPE html>\n<html>\n<head>\n<title>");
    out.append(title.as_str());
    out.append("</title>\n<style>\n");
    out.append(css_text());
    out.append("</style>\n</head>\n<body>\n");
    assert(out@ =~= spec_header(title@));
    let ghost acc0 = out@;
    // Toggle button.
    if has_flat {
        out.append(toggle_text());
    }
    // Breadcrumb.
    let crumbs = breadcrumb_x(rel.as_str(), is_root);
    out.append(crumbs.as_str());
    let ghost p_toggle: Seq<char> = if has_flat {
        spec_toggle()
    } else {
        Seq::<char>::empty()
    };
    let ghost p_flat: Seq<char> = if has_flat {
        "    <div id=\"flattened-gallery\" class=\"gallery\">\n"@ + spec_images_html(
            images.deep_view(),
            root_path@,
        ) + spec_flattened_cards(flattened_images.deep_view(), current_dir@, root_path@)
            + "    </div>\n"@
    } else {
        Seq::<char>::empty()
    };
    let ghost p_style: Seq<char> = "    <div id=\"directory-view\" style=\""@ + (if has_flat {
        "display: none;"@
    } else {
        Seq::<char>::empty()
    }) + "\">\n"@;
    let ghost p_dirs: Seq<char> = if subdirs.deep_view().len() > 0 {
        "    <h2>Directories</h2>\n    <div class=\"directories\">\n"@ + spec_dir_cards(
            subdirs.deep_view(),
        ) + "    </div>\n"@
    } else {
        Seq::<char>::empty()
    };
    let ghost p_imgs: Seq<char> = if images.deep_view().len() > 0 {
        "    <h2>Photos</h2>\n    <div class=\"gallery\">\n"@ + spec_images_html(
            images.deep_view(),
            root_path@,
        ) + "    </div>\n"@
    } else {
        Seq::<char>::empty()
    };
    assert(out@ =~= acc0 + p_toggle + spec_breadcrumb(rel@, is_root));
    let ghost acc1 = out@;
    // Heading.
    out.append("    <h1>");
    out.append(title.as_str());
    out.append("</h1>\n");
    assert(out@ =~= acc1 + "    <h1>"@ + title@ + "</h1>\n"@);
    let ghost acc2 = out@;
    // Flattened month view.
    if has_flat {
        out.append("    <div id=\"flattened-gallery\" class=\"gallery\">\n");
        let direct = generate_images_html(images, root_path);
        out.append(direct.as_str());
        let flat_cards = flattened_cards_x(flattened_images, current_dir, root_path);
        out.append(flat_cards.as_str());
        out.append("    </div>\n");
    }
    assert(out@ =~= acc2 + p_flat);
    let ghost acc3 = out@;
    // Directory view.
    out.append("    <div id=\"directory-view\" style=\"");
    if has_flat {
        out.append("display: none;");
    }
    out.append("\">\n");
    assert(out@ =~= acc3 + p_style);
    let ghost acc4 = out@;
    if subdirs.len() > 0 {
        out.append("    <h2>Directories</h2>\n    <div class=\"directories\">\n");
        let cards = dir_cards_x(subdirs);
        out.append(cards.as_str());
        out.append("    </div>\n");
    }
    assert(out@ =~= acc4 + p_dirs);
    let ghost acc5 = out@;
    if images.len() > 0 {
        out.append("    <h2>Photos</h2>\n    <div class=\"gallery\">\n");
        let direct = generate_images_html(images, root_path);
        out.append(direct.as_str());
        out.append("    </div>\n");
    }
    assert(out@ =~= acc5 + p_imgs);
    let ghost acc6 = out@;
    out.append("    </div>\n");
    out.append(modal_text());
    out.append("    <script>\n");
    out.append(script_text());
    out.append("    </script>\n");
    out.append("</body>\n</html>");
    proof {
        assert(out@ =~= acc6 + "    </div>\n"@ + spec_modal() + "    <script>\n"@ + spec_script()
            + "    </script>\n"@ + "</body>\n</html>"@);
        assert(out@ =~= spec_build_html(
            current_dir@,
            root_path@,
            subdirs.deep_view(),
            images.deep_view(),
            flattened_images.deep_view(),
        ));
    }
    out
}

} // verus!
