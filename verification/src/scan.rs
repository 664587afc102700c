use vstd::prelude::*;

use crate::model::{File_, FileV};
use crate::paths::{or_insert, or_insert_spec};

verus! {

/// What the walk of the local tree hands over for one regular file: the raw
/// path of its containing directory, its name, and its byte size.
pub struct RawEntry {
    pub parent: String,
    pub name: String,
    pub size: u64,
}

/// Mathematical image of a raw entry.
pub ghost struct RawEntryV {
    pub parent: Seq<char>,
    pub name: Seq<char>,
    pub size: u64,
}

impl View for RawEntry {
    type V = RawEntryV;

    open spec fn view(&self) -> RawEntryV {
        RawEntryV { parent: self.parent@, name: self.name@, size: self.size }
    }
}

impl DeepView for RawEntry {
    type V = RawEntryV;

    open spec fn deep_view(&self) -> RawEntryV {
        self.view()
    }
}

/// A scanned parent path, normalized: a path reported relative to the walk
/// root (so opening with `.`) loses that marker and gains a leading and
/// trailing slash; any other path is kept as reported.
pub open spec fn scan_parent(parent: Seq<char>) -> Seq<char> {
    if parent.len() > 0 && parent[0] == '.' {
        or_insert_spec(parent.skip(1), true, true)
    } else {
        parent
    }
}

/// Whether a scanned entry is hidden: its name begins with the
/// hidden-file marker.
pub open spec fn is_hidden(name: Seq<char>) -> bool {
    name.len() > 0 && name[0] == '.'
}

/// The descriptor the scanner produces for one raw entry: none for a hidden
/// file, otherwise a local descriptor (no origin, no explicit url) under the
/// normalized parent path.
pub open spec fn descriptor_of(e: RawEntryV) -> Option<FileV> {
    if is_hidden(e.name) {
        None
    } else {
        Some(
            FileV {
                origin: None,
                parent: scan_parent(e.parent),
                url: None,
                name: e.name,
                size: e.size,
            },
        )
    }
}

/// Builds the descriptor for one regular file found by the walk, or nothing
/// when the file is hidden.
pub fn local_descriptor(parent: &str, name: &str, size: u64) -> (r: Option<File_>)
    ensures
        r.deep_view() == descriptor_of(RawEntryV { parent: parent@, name: name@, size }),
{
    let nlen = name.unicode_len();
    if nlen > 0 && name.get_char(0) == '.' {
        return None;
    }
    let plen = parent.unicode_len();
    let norm: String = if plen > 0 && parent.get_char(0) == '.' {
        let rest = parent.substring_char(1, plen);
        proof {
            assert(rest@ =~= parent@.skip(1));
        }
        or_insert(rest, true, true)
    } else {
        parent.to_owned()
    };
    Some(File_ { origin: None, parent: norm, url: None, name: name.to_owned(), size })
}

/// The whole inventory a scan produces: the descriptors of every raw entry
/// in walk order, hidden files skipped.
pub open spec fn inventory_of(s: Seq<RawEntryV>) -> Seq<FileV>
    decreases s.len(),
{
    if s.len() == 0 {
        Seq::empty()
    } else {
        match descriptor_of(s.last()) {
            Some(f) => inventory_of(s.drop_last()).push(f),
            None => inventory_of(s.drop_last()),
        }
    }
}

/// Runs the scanner's per-entry rule over everything the walk reported.
#[verifier::loop_isolation(false)]
pub fn collect_inventory(raw: &Vec<RawEntry>) -> (r: Vec<File_>)
    ensures
        r.deep_view() == inventory_of(raw.deep_view()),
{
    let mut r: Vec<File_> = Vec::new();
    let mut i: usize = 0;
    while i < raw.len()
        invariant
            i <= raw.len(),
            r.deep_view() =~= inventory_of(raw.deep_view().take(i as int)),
        decreases raw.len() - i,
    {
        proof {
            assert(raw.deep_view().take(i + 1).drop_last() =~= raw.deep_view().take(i as int));
            assert(raw.deep_view().take(i + 1).last() == raw.deep_view()[i as int]);
        }
        match local_descriptor(raw[i].parent.as_str(), raw[i].name.as_str(), raw[i].size) {
            Some(f) => {
                r.push(f);
            },
            None => {},
        }
        i = i + 1;
        proof {
            assert(r.deep_view() =~= inventory_of(raw.deep_view().take(i as int)));
        }
    }
    proof {
        assert(raw.deep_view().take(raw.len() as int) =~= raw.deep_view());
    }
    r
}

} // verus!
