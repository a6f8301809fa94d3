//! The file index: the flat list of files the directory walk found,
//! narrowed to the extensions the server serves.  The walk itself is
//! plain I/O and lives with the caller; this module holds the
//! selection logic.

use vstd::prelude::*;
use crate::paths::extension_of_spec;
use crate::paths::extension_of;
use crate::text::str_equal;

verus! {

/// The extensions that belong in the index.
pub open spec fn is_indexed_ext(s: Seq<char>) -> bool {
    ||| extension_of_spec(s) == Some("html"@)
    ||| extension_of_spec(s) == Some("css"@)
    ||| extension_of_spec(s) == Some("js"@)
}

/// The entries of the walk whose extension is `html`, `css` or `js`,
/// in the order the walk gave them.
pub fn get_files(entries: &Vec<String>) -> (r: Vec<String>)
    ensures
        r.deep_view() == entries.deep_view().filter(|s: Seq<char>| is_indexed_ext(s)),
{
    let ghost pred = |s: Seq<char>| is_indexed_ext(s);
    let mut out: Vec<String> = Vec::new();
    proof {
        assert(out.deep_view() =~= entries.deep_view().take(0).filter(pred));
        assert(entries.deep_view().take(0).filter(pred) =~= Seq::<Seq<char>>::empty()) by {
            reveal(Seq::filter);
        }
    }
    let mut i: usize = 0;
    while i < entries.len()
        invariant
            i <= entries.len(),
            entries.deep_view().len() == entries@.len(),
            out.deep_view() == entries.deep_view().take(i as int).filter(pred),
            pred == (|s: Seq<char>| is_indexed_ext(s)),
        decreases entries.len() - i,
    {
        let e = &entries[i];
        let keep = match extension_of(e) {
            Some(x) => str_equal(x.as_str(), "html") || str_equal(x.as_str(), "css")
                || str_equal(x.as_str(), "js"),
            None => false,
        };
        proof {
            assert(entries.deep_view()[i as int] == entries@[i as int]@);
            assert(keep == pred(e@));
            entries.deep_view().take(i as int).lemma_filter_push(entries.deep_view()[i as int], pred);
            assert(entries.deep_view().take(i as int + 1) =~= entries.deep_view().take(
                i as int,
            ).push(entries.deep_view()[i as int]));
        }
        if keep {
            let ghost before = out.deep_view();
            out.push(e.clone());
            proof {
                assert(out.deep_view() =~= before.push(e@));
            }
        }
        i = i + 1;
    }
    proof {
        assert(entries.deep_view().take(entries@.len() as int) =~= entries.deep_view());
    }
    out
}

/// The files of the list whose extension equals `ext`, in order.
pub fn filter_files_by_extension(files: &Vec<String>, ext: &str) -> (r: Vec<String>)
    ensures
        r.deep_view() == files.deep_view().filter(
            |s: Seq<char>| extension_of_spec(s) == Some(ext@),
        ),
{
    let ghost pred = |s: Seq<char>| extension_of_spec(s) == Some(ext@);
    let mut out: Vec<String> = Vec::new();
    proof {
        assert(out.deep_view() =~= files.deep_view().take(0).filter(pred));
        assert(files.deep_view().take(0).filter(pred) =~= Seq::<Seq<char>>::empty()) by {
            reveal(Seq::filter);
        }
    }
    let mut i: usize = 0;
    while i < files.len()
        invariant
            i <= files.len(),
            files.deep_view().len() == files@.len(),
            out.deep_view() == files.deep_view().take(i as int).filter(pred),
            pred == (|s: Seq<char>| extension_of_spec(s) == Some(ext@)),
        decreases files.len() - i,
    {
        let e = &files[i];
        let keep = match extension_of(e) {
            Some(x) => str_equal(x.as_str(), ext),
            None => false,
        };
        proof {
            assert(files.deep_view()[i as int] == files@[i as int]@);
            assert(keep == pred(e@));
            files.deep_view().take(i as int).lemma_filter_push(files.deep_view()[i as int], pred);
            assert(files.deep_view().take(i as int + 1) =~= files.deep_view().take(i as int).push(
                files.deep_view()[i as int],
            ));
        }
        if keep {
            let ghost before = out.deep_view();
            out.push(e.clone());
            proof {
                assert(out.deep_view() =~= before.push(e@));
            }
        }
        i = i + 1;
    }
    proof {
        assert(files.deep_view().take(files@.len() as int) =~= files.deep_view());
    }
    out
}

} // verus!
