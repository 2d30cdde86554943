//! Support for snapshot providers that enumerate windows: one raw record
//! per visible window, deduplicated to one process per executable path.
//!
//! The enumeration itself is the provider's black box; what it hands over
//! is a list of window title and executable path pairs, possibly many per
//! process. The first window seen for a path wins.

use vstd::prelude::*;

use crate::normalize::{pretty_name_spec, pretty_process_name};

verus! {

/// One enumerated window: its title and its process's executable path.
pub struct WindowRecord {
    /// The window's title text.
    pub title: String,
    /// Path of the executable that owns the window.
    pub path: String,
}

/// Mathematical image of a [`WindowRecord`].
pub struct WindowView {
    pub title: Seq<char>,
    pub path: Seq<char>,
}

impl View for WindowRecord {
    type V = WindowView;

    open spec fn view(&self) -> WindowView {
        WindowView { title: self.title@, path: self.path@ }
    }
}

/// One process kept from the enumeration, with its display label.
pub struct ProcessRecord {
    /// The window title the process was seen under.
    pub name: String,
    /// Display label for the process.
    pub pretty_name: String,
    /// Path of the executable.
    pub path: String,
}

/// Mathematical image of a [`ProcessRecord`].
pub struct ProcessRecordView {
    pub name: Seq<char>,
    pub pretty_name: Seq<char>,
    pub path: Seq<char>,
}

impl View for ProcessRecord {
    type V = ProcessRecordView;

    open spec fn view(&self) -> ProcessRecordView {
        ProcessRecordView { name: self.name@, pretty_name: self.pretty_name@, path: self.path@ }
    }
}

/// The views of a list of window records, element for element.
pub open spec fn window_views(s: Seq<WindowRecord>) -> Seq<WindowView> {
    s.map_values(|w: WindowRecord| w@)
}

/// The views of a list of process records, element for element.
pub open spec fn process_views(s: Seq<ProcessRecord>) -> Seq<ProcessRecordView> {
    s.map_values(|p: ProcessRecord| p@)
}

/// Whether some window record carries this path.
pub open spec fn has_path(s: Seq<WindowView>, p: Seq<char>) -> bool {
    exists|i: int| 0 <= i < s.len() && s[i].path == p
}

/// The process record one kept window becomes.
pub open spec fn record_of(w: WindowView) -> ProcessRecordView {
    ProcessRecordView {
        name: w.title,
        pretty_name: pretty_name_spec(w.path, w.title),
        path: w.path,
    }
}

/// What [`dedup_windows`] returns: the windows in order of appearance,
/// keeping only the first one seen for each executable path.
pub open spec fn dedup_spec(s: Seq<WindowView>) -> Seq<ProcessRecordView>
    decreases s.len(),
{
    if s.len() == 0 {
        Seq::empty()
    } else {
        let rest = dedup_spec(s.drop_last());
        if has_path(s.drop_last(), s.last().path) {
            rest
        } else {
            rest.push(record_of(s.last()))
        }
    }
}

/// The kept records carry exactly the paths that occur in the windows.
proof fn lemma_dedup_paths(s: Seq<WindowView>, p: Seq<char>)
    ensures
        has_path(s, p) <==> exists|i: int|
            0 <= i < dedup_spec(s).len() && (#[trigger] dedup_spec(s)[i]).path == p,
    decreases s.len(),
{
    if s.len() > 0 {
        lemma_dedup_paths(s.drop_last(), p);
        let rest = dedup_spec(s.drop_last());
        if has_path(s.drop_last(), s.last().path) {
            assert(dedup_spec(s) == rest);
            if s.last().path == p {
                assert(has_path(s, p) <==> has_path(s.drop_last(), p)) by {
                    if has_path(s.drop_last(), p) {
                        let i = choose|i: int|
                            0 <= i < s.drop_last().len() && s.drop_last()[i].path == p;
                        assert(s[i].path == p);
                    }
                }
            } else {
                assert(has_path(s, p) <==> has_path(s.drop_last(), p)) by {
                    if has_path(s, p) {
                        let i = choose|i: int| 0 <= i < s.len() && s[i].path == p;
                        assert(s.drop_last()[i].path == p);
                    }
                    if has_path(s.drop_last(), p) {
                        let i = choose|i: int|
                            0 <= i < s.drop_last().len() && s.drop_last()[i].path == p;
                        assert(s[i].path == p);
                    }
                }
            }
        } else {
            let out = rest.push(record_of(s.last()));
            assert(dedup_spec(s) == out);
            assert(forall|i: int| 0 <= i < rest.len() ==> out[i] == #[trigger] rest[i]);
            if s.last().path == p {
                assert(out[out.len() - 1].path == p);
                assert(s[s.len() - 1].path == p);
            } else {
                assert(has_path(s, p) <==> has_path(s.drop_last(), p)) by {
                    if has_path(s, p) {
                        let i = choose|i: int| 0 <= i < s.len() && s[i].path == p;
                        assert(s.drop_last()[i].path == p);
                    }
                    if has_path(s.drop_last(), p) {
                        let i = choose|i: int|
                            0 <= i < s.drop_last().len() && s.drop_last()[i].path == p;
                        assert(s[i].path == p);
                    }
                }
                assert((exists|i: int| 0 <= i < out.len() && (#[trigger] out[i]).path == p)
                    <==> (exists|i: int| 0 <= i < rest.len() && (#[trigger] rest[i]).path == p))
                    by {
                    if exists|i: int| 0 <= i < out.len() && (#[trigger] out[i]).path == p {
                        let i = choose|i: int| 0 <= i < out.len() && (#[trigger] out[i]).path == p;
                        assert(i < rest.len());
                        assert(rest[i].path == p);
                    }
                }
            }
        }
    }
}

/// Whether some kept record carries this path.
fn contains_path(out: &Vec<ProcessRecord>, path: &String) -> (r: bool)
    ensures
        r == exists|k: int|
            0 <= k < out@.len() && (#[trigger] process_views(out@)[k]).path == path@,
{
    let mut j: usize = 0;
    while j < out.len()
        invariant
            j <= out@.len(),
            forall|k: int| 0 <= k < j ==> process_views(out@)[k].path != path@,
        decreases out@.len() - j,
    {
        if out[j].path == *path {
            assert(process_views(out@)[j as int].path == path@);
            return true;
        }
        j = j + 1;
    }
    false
}

/// Keeps one process per executable path, first window seen winning, in
/// order of appearance, each labelled by [`pretty_process_name`].
pub fn dedup_windows(windows: &Vec<WindowRecord>) -> (r: Vec<ProcessRecord>)
    ensures
        process_views(r@) == dedup_spec(window_views(windows@)),
{
    let ghost wv = window_views(windows@);
    let mut out: Vec<ProcessRecord> = Vec::new();
    let mut i: usize = 0;
    while i < windows.len()
        invariant
            i <= windows@.len(),
            wv == window_views(windows@),
            process_views(out@) == dedup_spec(wv.take(i as int)),
        decreases windows@.len() - i,
    {
        let w = &windows[i];
        let seen = contains_path(&out, &w.path);
        proof {
            lemma_dedup_paths(wv.take(i as int), w@.path);
            assert(seen == has_path(wv.take(i as int), w@.path));
            assert(wv.take(i as int + 1).drop_last() =~= wv.take(i as int));
            assert(wv.take(i as int + 1).last() == wv[i as int]);
        }
        if !seen {
            let record = ProcessRecord {
                name: w.title.clone(),
                pretty_name: pretty_process_name(w.path.as_str(), w.title.as_str()),
                path: w.path.clone(),
            };
            out.push(record);
        }
        proof {
            assert(process_views(out@) =~= dedup_spec(wv.take(i as int + 1)));
        }
        i = i + 1;
    }
    proof {
        assert(wv.take(windows@.len() as int) =~= wv);
    }
    out
}

} // verus!
