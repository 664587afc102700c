use vstd::prelude::*;

use crate::encoding::{decode_file_url, pct_decoded_of};
use crate::model::{copy_file, File_, FileV};
use crate::paths::{find_slash, is_prefix, lex_lt, seg_end, str_is_prefix, str_lt};
use crate::registry::{OriginEntry, OriginEntryV};

verus! {

/// One live entry of the requested local directory, as the filesystem
/// reports it: its name, whether it is a directory, and its byte size.
pub struct LocalEntry {
    pub name: String,
    pub is_dir: bool,
    pub size: u64,
}

/// Mathematical image of a local entry.
pub ghost struct LocalEntryV {
    pub name: Seq<char>,
    pub is_dir: bool,
    pub size: u64,
}

impl View for LocalEntry {
    type V = LocalEntryV;

    open spec fn view(&self) -> LocalEntryV {
        LocalEntryV { name: self.name@, is_dir: self.is_dir, size: self.size }
    }
}

impl DeepView for LocalEntry {
    type V = LocalEntryV;

    open spec fn deep_view(&self) -> LocalEntryV {
        self.view()
    }
}

/// Some folder candidate already carries this name.
pub open spec fn has_name(s: Seq<FileV>, n: Seq<char>) -> bool {
    exists|k: int| 0 <= k < s.len() && s[k].name == n
}

/// First-seen-wins folder collection: a candidate whose name is already
/// taken is dropped, any other is appended.
pub open spec fn add_folder(s: Seq<FileV>, f: FileV) -> Seq<FileV> {
    if has_name(s, f.name) {
        s
    } else {
        s.push(f)
    }
}

/// The folder candidate a local subdirectory contributes.
pub open spec fn local_folder(base: Seq<char>, e: LocalEntryV) -> FileV {
    FileV { origin: None, parent: base, url: None, name: e.name, size: 0 }
}

/// The file candidate a local regular file contributes.
pub open spec fn local_file(base: Seq<char>, e: LocalEntryV) -> FileV {
    FileV { origin: None, parent: base, url: None, name: e.name, size: e.size }
}

/// The folder and file candidates after classifying every local entry, in
/// order: subdirectories become untagged folder candidates, regular files
/// untagged file candidates, all parented at the requested path.
pub open spec fn local_phase(base: Seq<char>, locals: Seq<LocalEntryV>) -> (
    Seq<FileV>,
    Seq<FileV>,
)
    decreases locals.len(),
{
    if locals.len() == 0 {
        (Seq::empty(), Seq::empty())
    } else {
        let prior = local_phase(base, locals.drop_last());
        let e = locals.last();
        if e.is_dir {
            (add_folder(prior.0, local_folder(base, e)), prior.1)
        } else {
            (prior.0, prior.1.push(local_file(base, e)))
        }
    }
}

/// A direct child pushed by an origin: it keeps an explicit origin tag it
/// already names (content forwarded from a third origin), is tagged with
/// the pushing origin otherwise, and an explicit link it carries is
/// percent-decoded.
pub open spec fn origin_file(org: Seq<char>, f: FileV) -> FileV {
    FileV {
        origin: match f.origin {
            Some(o) => Some(o),
            None => Some(org),
        },
        parent: f.parent,
        url: match f.url {
            Some(u) => Some(pct_decoded_of(u)),
            None => None,
        },
        name: f.name,
        size: f.size,
    }
}

/// `parent` lies strictly below `base`.
pub open spec fn is_strict_descendant(parent: Seq<char>, base: Seq<char>) -> bool {
    is_prefix(base, parent) && parent.len() > base.len()
}

/// The next path segment of `parent` past the `base` prefix.
pub open spec fn seg_name(base: Seq<char>, parent: Seq<char>) -> Seq<char> {
    parent.subrange(base.len() as int, seg_end(parent, base.len() as int))
}

/// The virtual folder synthesized for a descriptor living strictly below
/// the requested path: named after the next path segment, tagged with the
/// pushing origin, parented at the requested path.
pub open spec fn virtual_folder(base: Seq<char>, org: Seq<char>, f: FileV) -> FileV {
    FileV { origin: Some(org), parent: base, url: None, name: seg_name(base, f.parent), size: 0 }
}

/// What one origin descriptor adds to the candidates: a direct child
/// becomes a file candidate, a strict descendant a virtual folder
/// (first-seen-wins), anything else contributes nothing.
pub open spec fn origin_step(
    base: Seq<char>,
    org: Seq<char>,
    f: FileV,
    acc: (Seq<FileV>, Seq<FileV>),
) -> (Seq<FileV>, Seq<FileV>) {
    if f.parent == base {
        (acc.0, acc.1.push(origin_file(org, f)))
    } else if is_strict_descendant(f.parent, base) {
        (add_folder(acc.0, virtual_folder(base, org, f)), acc.1)
    } else {
        acc
    }
}

/// One origin's whole snapshot folded over the candidates, in order.
pub open spec fn origin_files_phase(
    base: Seq<char>,
    org: Seq<char>,
    files: Seq<FileV>,
    acc: (Seq<FileV>, Seq<FileV>),
) -> (Seq<FileV>, Seq<FileV>)
    decreases files.len(),
{
    if files.len() == 0 {
        acc
    } else {
        origin_step(base, org, files.last(), origin_files_phase(base, org, files.drop_last(), acc))
    }
}

/// Every origin's snapshot folded over the candidates, in registry order.
pub open spec fn origins_phase(
    base: Seq<char>,
    entries: Seq<OriginEntryV>,
    acc: (Seq<FileV>, Seq<FileV>),
) -> (Seq<FileV>, Seq<FileV>)
    decreases entries.len(),
{
    if entries.len() == 0 {
        acc
    } else {
        origin_files_phase(
            base,
            entries.last().id,
            entries.last().files,
            origins_phase(base, entries.drop_last(), acc),
        )
    }
}

/// All folder and file candidates for one listing request, before ordering.
pub open spec fn merge_candidates(
    base: Seq<char>,
    locals: Seq<LocalEntryV>,
    entries: Seq<OriginEntryV>,
) -> (Seq<FileV>, Seq<FileV>) {
    origins_phase(base, entries, local_phase(base, locals))
}

/// Folder order: untagged (local) folders first, then origin-tagged ones;
/// names compared lexicographically when both sides are in the same group.
pub open spec fn folder_lt(a: FileV, b: FileV) -> bool {
    match (a.origin, b.origin) {
        (Option::None, Option::Some(_)) => true,
        (Option::Some(_), Option::None) => false,
        _ => lex_lt(a.name, b.name),
    }
}

/// File order: ascending by name; a tie puts the local entry first and
/// orders remote entries ascending by origin id.
pub open spec fn file_lt(a: FileV, b: FileV) -> bool {
    lex_lt(a.name, b.name) || (a.name == b.name && match (a.origin, b.origin) {
        (Option::None, Option::Some(_)) => true,
        (Option::Some(x), Option::Some(y)) => lex_lt(x, y),
        _ => false,
    })
}

/// The comparison the sort uses: folder order for the folder list, file
/// order for the file list.
pub open spec fn cand_lt(folders: bool, a: FileV, b: FileV) -> bool {
    if folders {
        folder_lt(a, b)
    } else {
        file_lt(a, b)
    }
}

fn cand_lt_exec(folders: bool, a: &File_, b: &File_) -> (r: bool)
    ensures
        r == cand_lt(folders, a@, b@),
{
    if folders {
        match (&a.origin, &b.origin) {
            (Option::None, Option::Some(_)) => true,
            (Option::Some(_), Option::None) => false,
            _ => str_lt(a.name.as_str(), b.name.as_str()),
        }
    } else {
        if str_lt(a.name.as_str(), b.name.as_str()) {
            true
        } else if !a.name.eq(&b.name) {
            false
        } else {
            match (&a.origin, &b.origin) {
                (Option::None, Option::Some(_)) => true,
                (Option::Some(x), Option::Some(y)) => str_lt(x.as_str(), y.as_str()),
                _ => false,
            }
        }
    }
}

/// Where a stable insertion puts a candidate: right before the first
/// element it comes strictly before, hence after every equal one.
pub open spec fn insert_pos(folders: bool, f: FileV, s: Seq<FileV>) -> int
    decreases s.len(),
{
    if s.len() == 0 {
        0
    } else if cand_lt(folders, f, s[0]) {
        0
    } else {
        1 + insert_pos(folders, f, s.drop_first())
    }
}

/// One stable insertion.
pub open spec fn spec_insert(folders: bool, f: FileV, s: Seq<FileV>) -> Seq<FileV> {
    s.insert(insert_pos(folders, f, s), f)
}

/// Stable insertion sort: the unique reordering that sorts while keeping
/// equal elements in first-appearance order.
pub open spec fn spec_sort(folders: bool, s: Seq<FileV>) -> Seq<FileV>
    decreases s.len(),
{
    if s.len() == 0 {
        Seq::empty()
    } else {
        spec_insert(folders, s.last(), spec_sort(folders, s.drop_last()))
    }
}

proof fn lemma_insert_pos_bounds(folders: bool, f: FileV, s: Seq<FileV>)
    ensures
        0 <= insert_pos(folders, f, s) <= s.len(),
    decreases s.len(),
{
    if s.len() > 0 && !cand_lt(folders, f, s[0]) {
        lemma_insert_pos_bounds(folders, f, s.drop_first());
    }
}

proof fn lemma_insert_pos_skip(folders: bool, f: FileV, s: Seq<FileV>, p: int)
    requires
        0 <= p <= s.len(),
        forall|k: int| 0 <= k < p ==> !cand_lt(folders, f, s[k]),
    ensures
        insert_pos(folders, f, s) == p + insert_pos(folders, f, s.skip(p)),
    decreases p,
{
    if p == 0 {
        assert(s.skip(0) =~= s);
    } else {
        assert(!cand_lt(folders, f, s[0]));
        lemma_insert_pos_skip(folders, f, s.drop_first(), p - 1);
        assert(s.drop_first().skip(p - 1) =~= s.skip(p));
    }
}

#[verifier::loop_isolation(false)]
fn find_insert_pos(folders: bool, f: &File_, r: &Vec<File_>) -> (p: usize)
    ensures
        p == insert_pos(folders, f@, r.deep_view()),
        p <= r.len(),
{
    let mut p: usize = 0;
    while p < r.len()
        invariant
            p <= r.len(),
            forall|k: int| 0 <= k < p ==> !cand_lt(folders, f@, r.deep_view()[k]),
        decreases r.len() - p,
    {
        if cand_lt_exec(folders, f, &r[p]) {
            proof {
                lemma_insert_pos_skip(folders, f@, r.deep_view(), p as int);
                assert(r.deep_view().skip(p as int)[0] == r.deep_view()[p as int]);
            }
            return p;
        }
        p = p + 1;
    }
    proof {
        lemma_insert_pos_skip(folders, f@, r.deep_view(), p as int);
        assert(r.deep_view().skip(p as int) =~= Seq::<FileV>::empty());
    }
    p
}

/// Sorts candidates by the given order, stably.
#[verifier::loop_isolation(false)]
pub fn sort_candidates(folders: bool, v: &Vec<File_>) -> (r: Vec<File_>)
    ensures
        r.deep_view() == spec_sort(folders, v.deep_view()),
{
    let mut r: Vec<File_> = Vec::new();
    let mut i: usize = 0;
    while i < v.len()
        invariant
            i <= v.len(),
            r.deep_view() =~= spec_sort(folders, v.deep_view().take(i as int)),
        decreases v.len() - i,
    {
        let f = copy_file(&v[i]);
        let p = find_insert_pos(folders, &f, &r);
        let ghost s0 = r.deep_view();
        r.insert(p, f);
        proof {
            assert(r.deep_view() =~= s0.insert(p as int, f@));
            assert(v.deep_view().take(i + 1).drop_last() =~= v.deep_view().take(i as int));
            assert(v.deep_view().take(i + 1).last() == v.deep_view()[i as int]);
        }
        i = i + 1;
        proof {
            assert(r.deep_view() =~= spec_sort(folders, v.deep_view().take(i as int)));
        }
    }
    proof {
        assert(v.deep_view().take(v.len() as int) =~= v.deep_view());
    }
    r
}

/// Appends a folder candidate unless one of its name is already present.
#[verifier::loop_isolation(false)]
fn add_folder_exec(folders: &mut Vec<File_>, f: File_)
    ensures
        final(folders).deep_view() == add_folder(old(folders).deep_view(), f@),
{
    let mut k: usize = 0;
    while k < folders.len()
        invariant
            k <= folders.len(),
            folders == old(folders),
            forall|m: int| 0 <= m < k ==> folders.deep_view()[m].name != f@.name,
        decreases folders.len() - k,
    {
        if folders[k].name.eq(&f.name) {
            proof {
                assert(folders.deep_view()[k as int].name == f@.name);
                assert(has_name(folders.deep_view(), f@.name));
            }
            return;
        }
        k = k + 1;
    }
    proof {
        assert(!has_name(folders.deep_view(), f@.name));
    }
    let ghost s0 = folders.deep_view();
    folders.push(f);
    proof {
        assert(folders.deep_view() =~= s0.push(f@));
    }
}

/// The merged listing for one request: the classified local entries and
/// every origin's contribution, each list deterministically ordered.
/// Folders come out in folder order, files in file order, both stably
/// sorted over the candidates that `merge_candidates` defines.
#[verifier::loop_isolation(false)]
pub fn merge_listing(base: &String, locals: &Vec<LocalEntry>, entries: &Vec<OriginEntry>) -> (r: (
    Vec<File_>,
    Vec<File_>,
))
    ensures
        r.0.deep_view() == spec_sort(
            true,
            merge_candidates(base@, locals.deep_view(), entries.deep_view()).0,
        ),
        r.1.deep_view() == spec_sort(
            false,
            merge_candidates(base@, locals.deep_view(), entries.deep_view()).1,
        ),
{
    let mut folders: Vec<File_> = Vec::new();
    let mut files: Vec<File_> = Vec::new();
    let mut i: usize = 0;
    while i < locals.len()
        invariant
            i <= locals.len(),
            folders.deep_view() =~= local_phase(base@, locals.deep_view().take(i as int)).0,
            files.deep_view() =~= local_phase(base@, locals.deep_view().take(i as int)).1,
        decreases locals.len() - i,
    {
        proof {
            assert(locals.deep_view().take(i + 1).drop_last() =~= locals.deep_view().take(
                i as int,
            ));
            assert(locals.deep_view().take(i + 1).last() == locals.deep_view()[i as int]);
        }
        let e = &locals[i];
        if e.is_dir {
            add_folder_exec(
                &mut folders,
                File_ {
                    origin: None,
                    parent: base.clone(),
                    url: None,
                    name: e.name.clone(),
                    size: 0,
                },
            );
        } else {
            let ghost fs0 = files.deep_view();
            files.push(
                File_ {
                    origin: None,
                    parent: base.clone(),
                    url: None,
                    name: e.name.clone(),
                    size: e.size,
                },
            );
            proof {
                assert(files.deep_view() =~= fs0.push(local_file(base@, e@)));
            }
        }
        i = i + 1;
        proof {
            assert(folders.deep_view() =~= local_phase(base@, locals.deep_view().take(i as int)).0);
            assert(files.deep_view() =~= local_phase(base@, locals.deep_view().take(i as int)).1);
        }
    }
    proof {
        assert(locals.deep_view().take(locals.len() as int) =~= locals.deep_view());
    }
    let ghost locals_acc = local_phase(base@, locals.deep_view());
    let mut oi: usize = 0;
    while oi < entries.len()
        invariant
            oi <= entries.len(),
            folders.deep_view() =~= origins_phase(
                base@,
                entries.deep_view().take(oi as int),
                locals_acc,
            ).0,
            files.deep_view() =~= origins_phase(
                base@,
                entries.deep_view().take(oi as int),
                locals_acc,
            ).1,
        decreases entries.len() - oi,
    {
        let entry = &entries[oi];
        let ghost prior = origins_phase(base@, entries.deep_view().take(oi as int), locals_acc);
        let mut j: usize = 0;
        while j < entry.files.len()
            invariant
                j <= entry.files.len(),
                folders.deep_view() =~= origin_files_phase(
                    base@,
                    entry.id@,
                    entry.files.deep_view().take(j as int),
                    prior,
                ).0,
                files.deep_view() =~= origin_files_phase(
                    base@,
                    entry.id@,
                    entry.files.deep_view().take(j as int),
                    prior,
                ).1,
            decreases entry.files.len() - j,
        {
            proof {
                assert(entry.files.deep_view().take(j + 1).drop_last() =~= entry.files.deep_view()
                    .take(j as int));
                assert(entry.files.deep_view().take(j + 1).last() == entry.files.deep_view()[
                    j as int]);
            }
            let f = &entry.files[j];
            if f.parent.eq(base) {
                let url2: Option<String> = match &f.url {
                    Some(u) => Some(decode_file_url(u.as_str())),
                    None => None,
                };
                let origin2: Option<String> = match &f.origin {
                    Some(o) => Some(o.clone()),
                    None => Some(entry.id.clone()),
                };
                let ghost fs0 = files.deep_view();
                files.push(
                    File_ {
                        origin: origin2,
                        parent: f.parent.clone(),
                        url: url2,
                        name: f.name.clone(),
                        size: f.size,
                    },
                );
                proof {
                    assert(files.deep_view() =~= fs0.push(origin_file(entry.id@, f@)));
                }
            } else {
                if str_is_prefix(base.as_str(), f.parent.as_str()) {
                    proof {
                        if f.parent@.len() == base@.len() {
                            assert(f.parent@ =~= base@);
                        }
                    }
                    let blen = base.as_str().unicode_len();
                    let pend = find_slash(f.parent.as_str(), blen);
                    let seg = f.parent.as_str().substring_char(blen, pend).to_owned();
                    proof {
                        assert(seg@ =~= seg_name(base@, f.parent@));
                    }
                    add_folder_exec(
                        &mut folders,
                        File_ {
                            origin: Some(entry.id.clone()),
                            parent: base.clone(),
                            url: None,
                            name: seg,
                            size: 0,
                        },
                    );
                }
            }
            j = j + 1;
            proof {
                assert(folders.deep_view() =~= origin_files_phase(
                    base@,
                    entry.id@,
                    entry.files.deep_view().take(j as int),
                    prior,
                ).0);
                assert(files.deep_view() =~= origin_files_phase(
                    base@,
                    entry.id@,
                    entry.files.deep_view().take(j as int),
                    prior,
                ).1);
            }
        }
        proof {
            assert(entry.files.deep_view().take(entry.files.len() as int) =~= entry.files
                .deep_view());
            assert(entries.deep_view().take(oi + 1).drop_last() =~= entries.deep_view().take(
                oi as int,
            ));
            assert(entries.deep_view().take(oi + 1).last() == entries.deep_view()[oi as int]);
        }
        oi = oi + 1;
        proof {
            assert(folders.deep_view() =~= origins_phase(
                base@,
                entries.deep_view().take(oi as int),
                locals_acc,
            ).0);
            assert(files.deep_view() =~= origins_phase(
                base@,
                entries.deep_view().take(oi as int),
                locals_acc,
            ).1);
        }
    }
    proof {
        assert(entries.deep_view().take(entries.len() as int) =~= entries.deep_view());
    }
    let sorted_folders = sort_candidates(true, &folders);
    let sorted_files = sort_candidates(false, &files);
    (sorted_folders, sorted_files)
}

} // verus!
