use vstd::prelude::*;

use crate::path::{
    dest_path, destination, dir_name, has_parent_segment, is_absolute, is_dir_name, is_safe_name,
    parent_dir, parent_of, safe_name,
};

verus! {

/// One archive entry, read into plain values.
pub struct EntryRecord {
    /// The name as stored in the archive (untrusted).
    pub name: String,
    /// The archive reader's sanitised path for the name, if it deems it enclosed.
    pub enclosed: Option<String>,
    pub comment: String,
    /// Uncompressed size as reported by the archive.
    pub size: u64,
    pub unix_mode: Option<u32>,
    /// The decompressed content.
    pub data: Vec<u8>,
}

/// What materialising one entry does to the filesystem.
pub enum Action {
    /// Create the directory and every missing ancestor.
    CreateDir { path: String },
    /// Create `parent` (recursively) if given, write `data` to `path`
    /// (truncating), then apply `mode` if given.
    WriteFile { path: String, parent: Option<String>, data: Vec<u8>, mode: Option<u32> },
}

/// One entry that is to be materialised, with what to report about it.
pub struct Step {
    pub name: String,
    /// The entry's comment, when it is non-empty.
    pub note: Option<String>,
    pub size: u64,
    pub action: Action,
}

pub enum ActionModel {
    CreateDir { path: Seq<char> },
    WriteFile { path: Seq<char>, parent: Option<Seq<char>>, data: Seq<u8>, mode: Option<u32> },
}

pub struct StepModel {
    pub name: Seq<char>,
    pub note: Option<Seq<char>>,
    pub size: u64,
    pub action: ActionModel,
}

pub open spec fn opt_view(o: Option<String>) -> Option<Seq<char>> {
    match o {
        Some(s) => Some(s@),
        None => None,
    }
}

impl View for Action {
    type V = ActionModel;

    open spec fn view(&self) -> ActionModel {
        match self {
            Action::CreateDir { path } => ActionModel::CreateDir { path: path@ },
            Action::WriteFile { path, parent, data, mode } => ActionModel::WriteFile {
                path: path@,
                parent: opt_view(*parent),
                data: data@,
                mode: *mode,
            },
        }
    }
}

impl View for Step {
    type V = StepModel;

    open spec fn view(&self) -> StepModel {
        StepModel { name: self.name@, note: opt_view(self.note), size: self.size, action: self.action@ }
    }
}

/// The entry may be materialised: the archive reader vouches for exactly its
/// stored name, and that name is safe.
pub open spec fn entry_is_safe(e: EntryRecord) -> bool {
    vouched_safe(e.name@, e.enclosed)
}

/// The archive reader's sanitised path is exactly `name`, and `name` is safe.
pub open spec fn vouched_safe(name: Seq<char>, enclosed: Option<String>) -> bool {
    &&& enclosed matches Some(p)
    &&& p@ == name
    &&& safe_name(name)
}

/// Whether an entry with this stored name and sanitised path may be materialised.
pub fn is_vouched_safe(name: &String, enclosed: &Option<String>) -> (r: bool)
    ensures
        r == vouched_safe(name@, *enclosed),
{
    let vouched = match enclosed {
        Some(p) => *p == *name,
        None => false,
    };
    vouched && is_safe_name(name.as_str())
}

pub open spec fn action_of(e: EntryRecord, root: Seq<char>) -> ActionModel {
    let path = dest_path(root, e.name@);
    if dir_name(e.name@) {
        ActionModel::CreateDir { path }
    } else {
        ActionModel::WriteFile { path, parent: parent_of(path), data: e.data@, mode: e.unix_mode }
    }
}

/// The step an entry yields beneath `root`; none for an unsafe entry.
pub open spec fn step_of(e: EntryRecord, root: Seq<char>) -> Option<StepModel> {
    if entry_is_safe(e) {
        Some(
            StepModel {
                name: e.name@,
                note: if e.comment@.len() > 0 { Some(e.comment@) } else { None },
                size: e.size,
                action: action_of(e, root),
            },
        )
    } else {
        None
    }
}

pub open spec fn step_seq(e: EntryRecord, root: Seq<char>) -> Seq<StepModel> {
    match step_of(e, root) {
        Some(s) => seq![s],
        None => Seq::empty(),
    }
}

/// The steps for a sequence of entries, in archive order.
pub open spec fn planned(es: Seq<EntryRecord>, root: Seq<char>) -> Seq<StepModel>
    decreases es.len(),
{
    if es.len() == 0 {
        Seq::empty()
    } else {
        planned(es.drop_last(), root) + step_seq(es.last(), root)
    }
}

/// Decides what one entry becomes beneath `root`: nothing when its name is
/// unsafe, a directory for a directory name, otherwise a file write.
pub fn plan_entry(e: &EntryRecord, root: &str) -> (r: Option<Step>)
    ensures
        r matches Some(s) ==> step_of(*e, root@) == Some(s@),
        r is None ==> step_of(*e, root@) is None,
{
    if !is_vouched_safe(&e.name, &e.enclosed) {
        return None;
    }
    let path = destination(root, e.name.as_str());
    let action = if is_dir_name(e.name.as_str()) {
        Action::CreateDir { path }
    } else {
        let parent = parent_dir(path.as_str());
        Action::WriteFile { path, parent, data: e.data.clone(), mode: e.unix_mode }
    };
    let note = if e.comment.as_str().unicode_len() > 0 {
        Some(e.comment.clone())
    } else {
        None
    };
    Some(Step { name: e.name.clone(), note, size: e.size, action })
}

/// The steps for all entries, in archive order, unsafe entries left out.
pub fn plan_entries(entries: &Vec<EntryRecord>, root: &str) -> (r: Vec<Step>)
    ensures
        r@.map_values(|s: Step| s@) == planned(entries@, root@),
{
    let mut out: Vec<Step> = Vec::new();
    let mut i: usize = 0;
    while i < entries.len()
        invariant
            i <= entries@.len(),
            out@.map_values(|s: Step| s@) == planned(entries@.take(i as int), root@),
        decreases entries@.len() - i,
    {
        let ghost before = out@;
        let step = plan_entry(&entries[i], root);
        proof {
            assert(entries@.take(i + 1).drop_last() == entries@.take(i as int));
        }
        match step {
            Some(s) => out.push(s),
            None => {},
        }
        assert(out@.map_values(|s: Step| s@) =~= before.map_values(|s: Step| s@) + step_seq(
            entries@[i as int],
            root@,
        ));
        i += 1;
    }
    assert(entries@.take(entries@.len() as int) == entries@);
    out
}

pub(crate) proof fn lemma_planned_concat(a: Seq<EntryRecord>, b: Seq<EntryRecord>, root: Seq<char>)
    ensures
        planned(a + b, root) == planned(a, root) + planned(b, root),
    decreases b.len(),
{
    if b.len() == 0 {
        assert(a + b =~= a);
        assert(planned(a, root) + Seq::empty() =~= planned(a, root));
    } else {
        lemma_planned_concat(a, b.drop_last(), root);
        assert((a + b).drop_last() =~= a + b.drop_last());
        assert((a + b).last() == b.last());
        assert(planned(a + b, root) =~= planned(a, root) + planned(b, root));
    }
}

/// An entry whose stored name is absolute or holds a `..` segment yields no
/// step, and every other entry yields exactly the step it would yield
/// without it.
pub proof fn lemma_unsafe_entry_skipped(es: Seq<EntryRecord>, i: int, root: Seq<char>)
    requires
        0 <= i < es.len(),
        is_absolute(es[i].name@) || has_parent_segment(es[i].name@),
    ensures
        step_of(es[i], root) is None,
        planned(es, root) == planned(es.remove(i), root),
{
    let pre = es.take(i);
    let post = es.skip(i + 1);
    let one = seq![es[i]];
    assert(es =~= pre + one + post);
    assert(es.remove(i) =~= pre + post);
    lemma_planned_concat(pre + one, post, root);
    lemma_planned_concat(pre, one, root);
    lemma_planned_concat(pre, post, root);
    assert(!safe_name(es[i].name@));
    assert(one.last() == es[i]);
    assert(one.drop_last() =~= Seq::<EntryRecord>::empty());
    assert(planned(Seq::<EntryRecord>::empty(), root) =~= Seq::<StepModel>::empty());
    assert(step_seq(es[i], root) =~= Seq::<StepModel>::empty());
    assert(planned(one, root) =~= Seq::<StepModel>::empty());
    assert(planned(pre, root) + Seq::<StepModel>::empty() =~= planned(pre, root));
}

} // verus!
