//! File discovery: which walked files are kept, and the directories that
//! hold them.
use vstd::prelude::*;
use crate::files::selector::{FileSelector, filters_match};
use crate::text::{insert_sorted_unique, owned, strictly_sorted, views};
use crate::versions::extract::{component_dir, get_component_path};

verus! {

/// Result of file discovery: the files in the order they were found, and
/// the directories that hold them, in increasing order.
pub struct DiscoveredFiles {
    pub files: Vec<String>,
    pub dirs: Vec<String>,
}

/// File discovery engine that filters walked files.
pub struct FileDiscovery {
    pub selector: FileSelector,
}

impl FileDiscovery {
    /// Create a new file discovery engine.
    pub fn new(selector: FileSelector) -> (r: Self)
        ensures
            r.selector == selector,
    {
        FileDiscovery { selector }
    }

    /// A walked file is kept: the selector promotes it and the filters
    /// admit it.
    pub open spec fn keeps(self, relative: Seq<char>, filter: Seq<Seq<char>>, include_protected: bool) -> bool {
        self.selector.promotes(relative, include_protected) && filters_match(relative, filter)
    }

    /// Whether a walked file (a path relative to the root) is kept.
    pub fn keeps_file(&self, relative: &str, filter: &Vec<String>, include_protected: bool) -> (r: bool)
        requires
            self.selector.wf(),
        ensures
            r == self.keeps(relative@, views(filter@), include_protected),
    {
        self.selector.should_promote(relative, include_protected) && FileSelector::matches_filter(
            relative,
            filter,
        )
    }

    /// Records a walked file in the result, if it is kept: the file is
    /// added, and its directory (unless it is the root).
    pub fn discover_file(
        &self,
        found: &mut DiscoveredFiles,
        relative: &str,
        filter: &Vec<String>,
        include_protected: bool,
    )
        requires
            self.selector.wf(),
            strictly_sorted(views(old(found).dirs@)),
        ensures
            strictly_sorted(views(final(found).dirs@)),
            if self.keeps(relative@, views(filter@), include_protected) {
                &&& views(final(found).files@) == views(old(found).files@).push(relative@)
                &&& views(final(found).dirs@).to_set() == if component_dir(relative@).len() == 0 {
                    views(old(found).dirs@).to_set()
                } else {
                    views(old(found).dirs@).to_set().insert(component_dir(relative@))
                }
            } else {
                final(found).files@ == old(found).files@ && final(found).dirs@ == old(
                    found,
                ).dirs@
            },
    {
        if !self.keeps_file(relative, filter, include_protected) {
            return;
        }
        let parent = get_component_path(relative);
        if !parent.as_str().is_empty() {
            insert_sorted_unique(&mut found.dirs, parent);
        }
        let ghost f0 = found.files@;
        found.files.push(owned(relative));
        assert(views(found.files@) =~= views(f0).push(relative@));
    }
}

} // verus!
