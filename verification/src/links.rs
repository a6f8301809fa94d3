//! The asset linker: which stylesheet and script tags belong to an
//! HTML page.  A `styles.css` directly under a directory named after
//! the asset folder is global and linked into every page.  Any other
//! asset is linked into exactly the pages that share its relative
//! parent directory and its file stem.

use vstd::prelude::*;
use crate::paths::file_name_of_spec;
use crate::paths::parent_of_spec;
use crate::paths::stem_of_spec;
use crate::paths::relative_to_spec;
use crate::paths::file_name_of;
use crate::paths::parent_of;
use crate::paths::stem_of;
use crate::paths::get_relative_directory;
use crate::text::contains_seq;
use crate::text::lemma_contains_itself;
use crate::text::lemma_contains_in_left;
use crate::text::lemma_contains_in_right;
use crate::text::str_equal;

verus! {

pub open spec fn stylesheet_tag(path: Seq<char>) -> Seq<char> {
    "<link rel=\"stylesheet\" href=\"/"@ + path + "\">"@
}

pub open spec fn script_tag(path: Seq<char>) -> Seq<char> {
    "<script src=\"/"@ + path + "\"></script>"@
}

/// A global stylesheet: literally named `styles.css`, directly inside
/// a directory named `folder`.
pub open spec fn is_global_stylesheet(f: Seq<char>, folder: Seq<char>) -> bool {
    &&& file_name_of_spec(f) == "styles.css"@
    &&& file_name_of_spec(parent_of_spec(f)) == folder
}

pub open spec fn global_link_for(f: Seq<char>, folder: Seq<char>, tag_type: Seq<char>) -> Seq<
    char,
> {
    if is_global_stylesheet(f, folder) && tag_type == "stylesheet"@ {
        stylesheet_tag(folder + "/"@ + file_name_of_spec(f))
    } else {
        Seq::empty()
    }
}

/// Concatenation, in index order, of the global link of every file
/// that has one.
pub open spec fn global_links_spec(
    files: Seq<Seq<char>>,
    folder: Seq<char>,
    tag_type: Seq<char>,
) -> Seq<char>
    decreases files.len(),
{
    if files.len() == 0 {
        Seq::empty()
    } else {
        global_links_spec(files.drop_last(), folder, tag_type) + global_link_for(
            files.last(),
            folder,
            tag_type,
        )
    }
}

/// The asset `f` is directory-matched to a page with relative parent
/// `html_rel_parent` and stem `html_stem`: `f` lies under a directory
/// named `folder`, in the same relative parent, with the same stem.
pub open spec fn dm_matched(
    f: Seq<char>,
    html_rel_parent: Seq<char>,
    html_stem: Seq<char>,
    folder: Seq<char>,
) -> bool {
    match relative_to_spec(f, folder) {
        Some(rel) => parent_of_spec(rel) == html_rel_parent && stem_of_spec(f) == html_stem,
        None => false,
    }
}

/// The href of a directory-matched asset: the asset folder name
/// followed by the asset's path relative to that folder.
pub open spec fn dm_href(f: Seq<char>, folder: Seq<char>) -> Seq<char> {
    match relative_to_spec(f, folder) {
        Some(rel) => if parent_of_spec(rel).len() == 0 {
            folder + "/"@ + file_name_of_spec(f)
        } else {
            folder + "/"@ + parent_of_spec(rel) + "/"@ + file_name_of_spec(f)
        },
        None => Seq::empty(),
    }
}

pub open spec fn dm_link_for(
    f: Seq<char>,
    html_rel_parent: Seq<char>,
    html_stem: Seq<char>,
    folder: Seq<char>,
    tag_type: Seq<char>,
) -> Seq<char> {
    if dm_matched(f, html_rel_parent, html_stem, folder) {
        if tag_type == "stylesheet"@ {
            stylesheet_tag(dm_href(f, folder))
        } else if tag_type == "script"@ {
            script_tag(dm_href(f, folder))
        } else {
            Seq::empty()
        }
    } else {
        Seq::empty()
    }
}

/// Concatenation, in index order, of the directory-matched link of
/// every file that has one.
pub open spec fn dm_links_fold(
    files: Seq<Seq<char>>,
    html_rel_parent: Seq<char>,
    html_stem: Seq<char>,
    folder: Seq<char>,
    tag_type: Seq<char>,
) -> Seq<char>
    decreases files.len(),
{
    if files.len() == 0 {
        Seq::empty()
    } else {
        dm_links_fold(files.drop_last(), html_rel_parent, html_stem, folder, tag_type)
            + dm_link_for(files.last(), html_rel_parent, html_stem, folder, tag_type)
    }
}

/// The directory-matched links of `files` for the page `html_file`;
/// empty when the page does not lie under a directory named `html`.
pub open spec fn dm_links_spec(
    files: Seq<Seq<char>>,
    html_file: Seq<char>,
    folder: Seq<char>,
    tag_type: Seq<char>,
) -> Seq<char> {
    match relative_to_spec(html_file, "html"@) {
        Some(hrel) => dm_links_fold(
            files,
            parent_of_spec(hrel),
            stem_of_spec(html_file),
            folder,
            tag_type,
        ),
        None => Seq::empty(),
    }
}

/// The asset `f` under the folder named `folder` is directory-matched
/// to the page `html_file` itself: same relative parent directory,
/// same stem.
pub open spec fn linked_into(f: Seq<char>, html_file: Seq<char>, folder: Seq<char>) -> bool {
    match relative_to_spec(html_file, "html"@) {
        Some(hrel) => dm_matched(f, parent_of_spec(hrel), stem_of_spec(html_file), folder),
        None => false,
    }
}

/// When some file of the index is a global stylesheet, the global
/// links hold the `css/styles.css` tag.
pub proof fn lemma_global_links_has_tag(files: Seq<Seq<char>>, folder: Seq<char>)
    requires
        exists|i: int| 0 <= i < files.len() && is_global_stylesheet(files[i], folder),
    ensures
        contains_seq(
            global_links_spec(files, folder, "stylesheet"@),
            stylesheet_tag(folder + "/"@ + "styles.css"@),
        ),
    decreases files.len(),
{
    let i = choose|i: int| 0 <= i < files.len() && is_global_stylesheet(files[i], folder);
    let tag = stylesheet_tag(folder + "/"@ + "styles.css"@);
    if i == files.len() - 1 {
        let pre = global_links_spec(files.drop_last(), folder, "stylesheet"@);
        assert(global_link_for(files.last(), folder, "stylesheet"@) == tag);
        lemma_contains_itself(tag);
        lemma_contains_in_right(pre, tag, tag);
    } else {
        assert(files.drop_last()[i] == files[i]);
        lemma_global_links_has_tag(files.drop_last(), folder);
        lemma_contains_in_left(
            global_links_spec(files.drop_last(), folder, "stylesheet"@),
            global_link_for(files.last(), folder, "stylesheet"@),
            tag,
        );
    }
}

/// An index in which no asset is directory-matched to the page
/// contributes no directory-matched link at all.
pub proof fn lemma_unmatched_assets_make_no_links(
    files: Seq<Seq<char>>,
    html_rel_parent: Seq<char>,
    html_stem: Seq<char>,
    folder: Seq<char>,
    tag_type: Seq<char>,
)
    requires
        forall|i: int| 0 <= i < files.len() ==> !dm_matched(
            files[i],
            html_rel_parent,
            html_stem,
            folder,
        ),
    ensures
        dm_links_fold(files, html_rel_parent, html_stem, folder, tag_type) == Seq::<char>::empty(),
    decreases files.len(),
{
    if files.len() > 0 {
        assert(forall|i: int| 0 <= i < files.len() - 1 ==> files.drop_last()[i] == files[i]);
        lemma_unmatched_assets_make_no_links(
            files.drop_last(),
            html_rel_parent,
            html_stem,
            folder,
            tag_type,
        );
        assert(Seq::<char>::empty() + Seq::<char>::empty() =~= Seq::<char>::empty());
    }
}

/// A directory-matched asset, alone in the index, yields exactly its
/// own stylesheet tag.
pub proof fn lemma_matched_asset_linked(
    f: Seq<char>,
    html_rel_parent: Seq<char>,
    html_stem: Seq<char>,
    folder: Seq<char>,
)
    requires
        dm_matched(f, html_rel_parent, html_stem, folder),
    ensures
        dm_links_fold(seq![f], html_rel_parent, html_stem, folder, "stylesheet"@)
            == stylesheet_tag(dm_href(f, folder)),
{
    assert(seq![f].drop_last() =~= Seq::<Seq<char>>::empty());
    assert(dm_links_fold(Seq::<Seq<char>>::empty(), html_rel_parent, html_stem, folder,
        "stylesheet"@) == Seq::<char>::empty());
    assert(seq![f].last() == f);
    assert(Seq::<char>::empty() + stylesheet_tag(dm_href(f, folder)) =~= stylesheet_tag(
        dm_href(f, folder),
    ));
}

/// Global links, executably.
pub fn generate_global_links(files: &Vec<String>, folder: &str, tag_type: &str) -> (r: String)
    ensures
        r@ == global_links_spec(files.deep_view(), folder@, tag_type@),
{
    let ghost dv = files.deep_view();
    let mut acc = String::new();
    proof {
        assert(acc@ =~= global_links_spec(dv.take(0), folder@, tag_type@));
    }
    let mut i: usize = 0;
    while i < files.len()
        invariant
            i <= files@.len(),
            dv == files.deep_view(),
            dv.len() == files@.len(),
            acc@ == global_links_spec(dv.take(i as int), folder@, tag_type@),
        decreases files@.len() - i,
    {
        let f = &files[i];
        proof {
            assert(dv[i as int] == files@[i as int]@);
            assert(dv.take(i as int + 1).drop_last() =~= dv.take(i as int));
            assert(dv.take(i as int + 1).last() == dv[i as int]);
        }
        let fname = file_name_of(f);
        let is_styles = str_equal(fname.as_str(), "styles.css");
        let par = parent_of(f);
        let par_ok = str_equal(file_name_of(&par).as_str(), folder);
        if is_styles && par_ok && str_equal(tag_type, "stylesheet") {
            let tag = "<link rel=\"stylesheet\" href=\"/".to_owned().concat(folder).concat(
                "/",
            ).concat(fname.as_str()).concat("\">");
            proof {
                assert(tag@ =~= stylesheet_tag(folder@ + "/"@ + file_name_of_spec(f@)));
                assert(global_link_for(dv[i as int], folder@, tag_type@) == tag@);
            }
            acc.append(tag.as_str());
        } else {
            proof {
                assert(global_link_for(dv[i as int], folder@, tag_type@) =~= Seq::<char>::empty());
                assert(acc@ + Seq::<char>::empty() =~= acc@);
            }
        }
        i = i + 1;
    }
    proof {
        assert(dv.take(files@.len() as int) =~= dv);
    }
    acc
}

/// Directory-matched links, executably.
pub fn generate_directory_matched_links(
    files: &Vec<String>,
    html_file: &String,
    folder: &str,
    tag_type: &str,
) -> (r: String)
    ensures
        r@ == dm_links_spec(files.deep_view(), html_file@, folder@, tag_type@),
{
    let ghost dv = files.deep_view();
    let hrel = match get_relative_directory(html_file, "html") {
        Some(hrel) => hrel,
        None => {
            return String::new();
        },
    };
    let hparent = parent_of(&hrel);
    let hstem = stem_of(html_file);
    let ghost hp = hparent@;
    let ghost hs = hstem@;
    let mut acc = String::new();
    proof {
        assert(acc@ =~= dm_links_fold(dv.take(0), hp, hs, folder@, tag_type@));
    }
    let mut i: usize = 0;
    while i < files.len()
        invariant
            i <= files@.len(),
            dv == files.deep_view(),
            dv.len() == files@.len(),
            relative_to_spec(html_file@, "html"@) == Some(hrel@),
            hp == parent_of_spec(hrel@),
            hs == stem_of_spec(html_file@),
            hparent@ == hp,
            hstem@ == hs,
            acc@ == dm_links_fold(dv.take(i as int), hp, hs, folder@, tag_type@),
        decreases files@.len() - i,
    {
        let f = &files[i];
        proof {
            assert(dv[i as int] == files@[i as int]@);
            assert(dv.take(i as int + 1).drop_last() =~= dv.take(i as int));
            assert(dv.take(i as int + 1).last() == dv[i as int]);
        }
        match get_relative_directory(f, folder) {
            Some(rel) => {
                let fparent = parent_of(&rel);
                let fstem = stem_of(f);
                if str_equal(fstem.as_str(), hstem.as_str()) && str_equal(
                    fparent.as_str(),
                    hparent.as_str(),
                ) {
                    let fname = file_name_of(f);
                    let path = if fparent.as_str().unicode_len() == 0 {
                        folder.to_owned().concat("/").concat(fname.as_str())
                    } else {
                        folder.to_owned().concat("/").concat(fparent.as_str()).concat(
                            "/",
                        ).concat(fname.as_str())
                    };
                    proof {
                        assert(path@ =~= dm_href(f@, folder@));
                    }
                    let tag = if str_equal(tag_type, "stylesheet") {
                        "<link rel=\"stylesheet\" href=\"/".to_owned().concat(
                            path.as_str(),
                        ).concat("\">")
                    } else if str_equal(tag_type, "script") {
                        "<script src=\"/".to_owned().concat(path.as_str()).concat("\"></script>")
                    } else {
                        String::new()
                    };
                    proof {
                        assert(tag@ =~= dm_link_for(dv[i as int], hp, hs, folder@, tag_type@));
                    }
                    acc.append(tag.as_str());
                } else {
                    proof {
                        assert(dm_link_for(dv[i as int], hp, hs, folder@, tag_type@) =~= Seq::<
                            char,
                        >::empty());
                        assert(acc@ + Seq::<char>::empty() =~= acc@);
                    }
                }
            },
            None => {
                proof {
                    assert(dm_link_for(dv[i as int], hp, hs, folder@, tag_type@) =~= Seq::<
                        char,
                    >::empty());
                    assert(acc@ + Seq::<char>::empty() =~= acc@);
                }
            },
        }
        i = i + 1;
    }
    proof {
        assert(dv.take(files@.len() as int) =~= dv);
    }
    acc
}

} // verus!
