use vstd::prelude::*;

use crate::paths::{
    action_view, natives_extract_dir, natives_extract_dir_of, plan_entry, planned_action,
    EntryAction,
};
use crate::platform::Os;

verus! {

// ---------------------------------------------------------------------------
// Reading a zip archive held in memory
// ---------------------------------------------------------------------------

/// `std::io::Cursor`, a reader over bytes in memory.
#[verifier::external_type_specification]
#[verifier::external_body]
#[verifier::reject_recursive_types(T)]
pub struct ExCursor<T>(std::io::Cursor<T>);

/// `zip::ZipArchive`, a zip archive open for reading.
#[verifier::external_type_specification]
#[verifier::external_body]
#[verifier::reject_recursive_types(R)]
pub struct ExZipArchive<R>(zip::ZipArchive<R>);

/// What the entries of an open archive give when read, by index: the
/// entry's name and content, or `None` when either cannot be read.
pub uninterp spec fn zip_archive_entries(a: zip::ZipArchive<std::io::Cursor<Vec<u8>>>) -> Seq<
    Option<(Seq<char>, Seq<u8>)>,
>;

/// What `ZipArchive::new` makes of the bytes of an archive: `None` when they
/// do not hold an archive it can read, otherwise the entries of the archive
/// (as `zip_archive_entries` gives them), a function of the bytes alone.
pub uninterp spec fn zip_parse(bytes: Seq<u8>) -> Option<Seq<Option<(Seq<char>, Seq<u8>)>>>;

/// `zip::ZipArchive::new` on the bytes in memory. Claims that it fails
/// exactly when `zip_parse` of the bytes is `None`, and that the archive it
/// opens has the entries that `zip_parse` names.
#[verifier::external_body]
fn open_zip(bytes: Vec<u8>) -> (r: Option<zip::ZipArchive<std::io::Cursor<Vec<u8>>>>)
    ensures
        match r {
            Some(a) => zip_parse(bytes@) == Some(zip_archive_entries(a)),
            None => zip_parse(bytes@) is None,
        },
{
    zip::ZipArchive::new(std::io::Cursor::new(bytes)).ok()
}

/// `ZipArchive::len`: the number of entries.
#[verifier::external_body]
fn zip_len(a: &zip::ZipArchive<std::io::Cursor<Vec<u8>>>) -> (n: usize)
    ensures
        n == zip_archive_entries(*a).len(),
{
    a.len()
}

/// `ZipArchive::by_index`, with the entry it hands out mapped to its name
/// (`ZipFile::name`) and its content (read to the end). Claims that this is
/// the entry's item in `zip_archive_entries`, and that reading leaves the
/// entries of the archive as they were.
#[verifier::external_body]
fn zip_entry(a: &mut zip::ZipArchive<std::io::Cursor<Vec<u8>>>, i: usize) -> (r: Option<
    (String, Vec<u8>),
>)
    requires
        i < zip_archive_entries(*old(a)).len(),
    ensures
        zip_archive_entries(*final(a)) == zip_archive_entries(*old(a)),
        match r {
            Some((n, d)) => zip_archive_entries(*old(a))[i as int] == Some((n@, d@)),
            None => zip_archive_entries(*old(a))[i as int] is None,
        },
{
    let mut file = a.by_index(i).ok()?;
    let name = file.name().ok()?.to_string();
    let mut data = Vec::new();
    std::io::Read::read_to_end(&mut file, &mut data).ok()?;
    Some((name, data))
}

/// One entry of a zip archive: its name and its content.
pub struct ZipEntry {
    pub name: String,
    pub data: Vec<u8>,
}

/// The entries as names and contents.
pub open spec fn entry_views(v: Seq<ZipEntry>) -> Seq<(Seq<char>, Seq<u8>)> {
    v.map_values(|e: ZipEntry| (e.name@, e.data@))
}

/// The entries read in order up to the first one that cannot be read, and
/// whether every entry was read.
pub open spec fn readable_prefix(es: Seq<Option<(Seq<char>, Seq<u8>)>>) -> (
    Seq<(Seq<char>, Seq<u8>)>,
    bool,
)
    decreases es.len(),
{
    if es.len() == 0 {
        (Seq::empty(), true)
    } else {
        let (p, all) = readable_prefix(es.drop_last());
        if all {
            match es.last() {
                Some(e) => (p.push(e), true),
                None => (p, false),
            }
        } else {
            (p, false)
        }
    }
}

/// What reading the archive `bytes` gives: `None` when it cannot be opened;
/// otherwise its entries in order up to the first that cannot be read, and
/// whether every entry was read.
pub open spec fn zip_contents(bytes: Seq<u8>) -> Option<(Seq<(Seq<char>, Seq<u8>)>, bool)> {
    match zip_parse(bytes) {
        Some(es) => Some(readable_prefix(es)),
        None => None,
    }
}

/// Reads the archive `bytes`: its entries in order, stopping at the first
/// that cannot be read, and whether every entry was read.
pub fn read_zip(bytes: Vec<u8>) -> (r: Option<(Vec<ZipEntry>, bool)>)
    ensures
        match r {
            Some((v, all)) => zip_contents(bytes@) == Some((entry_views(v@), all)),
            None => zip_contents(bytes@) is None,
        },
{
    let mut a = match open_zip(bytes) {
        Some(a) => a,
        None => return None,
    };
    let ghost es = zip_archive_entries(a);
    let n = zip_len(&a);
    let mut entries: Vec<ZipEntry> = Vec::new();
    let mut i: usize = 0;
    while i < n
        invariant
            zip_contents(bytes@) == Some(readable_prefix(es)),
            zip_archive_entries(a) == es,
            n == es.len(),
            i <= n,
            readable_prefix(es.take(i as int)) == (entry_views(entries@), true),
        decreases n - i,
    {
        assert(es.take(i + 1).drop_last() =~= es.take(i as int));
        match zip_entry(&mut a, i) {
            Some((name, data)) => {
                let ghost before = entry_views(entries@);
                entries.push(ZipEntry { name, data });
                assert(entry_views(entries@) =~= before.push(es[i as int]->0));
            },
            None => {
                proof {
                    assert(es.take(i + 1).last() == es[i as int]);
                    assert(readable_prefix(es.take(i + 1)) == (entry_views(entries@), false));
                    lemma_readable_prefix_stops(es, i as int + 1);
                }
                return Some((entries, false));
            },
        }
        i = i + 1;
    }
    assert(es.take(n as int) =~= es);
    Some((entries, true))
}

/// Once an entry cannot be read, no later entry changes what is read.
proof fn lemma_readable_prefix_stops(es: Seq<Option<(Seq<char>, Seq<u8>)>>, k: int)
    requires
        0 < k <= es.len(),
        !readable_prefix(es.take(k)).1,
    ensures
        readable_prefix(es) == readable_prefix(es.take(k)),
    decreases es.len() - k,
{
    if k < es.len() {
        assert(es.take(k + 1).drop_last() =~= es.take(k));
        lemma_readable_prefix_stops(es, k + 1);
    } else {
        assert(es.take(k) =~= es);
    }
}

// ---------------------------------------------------------------------------
// Unpacking the natives archive
// ---------------------------------------------------------------------------

/// What unpacking the natives archive of a version does: the directory it
/// unpacks into, one step per entry read (the action and the content to
/// write), and whether every entry of the archive was read.
pub struct UnpackPlan {
    pub dir: String,
    pub steps: Vec<(EntryAction, Vec<u8>)>,
    pub complete: bool,
}

/// The plan holds, for the entries `es`, the action `planned_action` gives
/// each entry's name in `dir`, with the entry's content.
pub open spec fn plan_follows(os: Os, p: UnpackPlan, es: Seq<(Seq<char>, Seq<u8>)>) -> bool {
    &&& p.steps@.len() == es.len()
    &&& forall|i: int|
        0 <= i < es.len() ==> {
            &&& action_view(#[trigger] p.steps@[i].0) == planned_action(os, p.dir@, es[i].0)
            &&& p.steps@[i].1@ == es[i].1
        }
}

/// The plan for unpacking the entries `entries` of the natives archive of
/// `version_id`, of which `complete` says whether every entry was read: the
/// directory `natives_extract_dir`, and the step for each entry, in order.
pub fn plan_unpack_entries(
    os: Os,
    version_id: &str,
    entries: &Vec<ZipEntry>,
    complete: bool,
) -> (p: UnpackPlan)
    ensures
        p.dir@ == natives_extract_dir(os, version_id@),
        p.complete == complete,
        plan_follows(os, p, entry_views(entries@)),
{
    let dir = natives_extract_dir_of(os, version_id);
    let ghost es = entry_views(entries@);
    let mut steps: Vec<(EntryAction, Vec<u8>)> = Vec::new();
    let mut i: usize = 0;
    while i < entries.len()
        invariant
            i <= entries@.len(),
            es == entry_views(entries@),
            steps@.len() == i,
            forall|j: int|
                0 <= j < i ==> {
                    &&& action_view(#[trigger] steps@[j].0) == planned_action(os, dir@, es[j].0)
                    &&& steps@[j].1@ == es[j].1
                },
        decreases entries@.len() - i,
    {
        let e = &entries[i];
        let action = plan_entry(os, dir.as_str(), e.name.as_str());
        let data = e.data.clone();
        assert(data@ =~= e.data@);
        steps.push((action, data));
        i = i + 1;
    }
    UnpackPlan { dir, steps, complete }
}

/// The plan for unpacking the natives archive `archive` of `version_id`:
/// `None` when the archive cannot be opened; otherwise the directory
/// `natives_extract_dir`, a step for each entry read, in order, and whether
/// every entry was read.
pub fn plan_unpack(os: Os, version_id: &str, archive: Vec<u8>) -> (r: Option<UnpackPlan>)
    ensures
        match r {
            None => zip_contents(archive@) is None,
            Some(p) => zip_contents(archive@) matches Some((es, complete)) && p.dir@
                == natives_extract_dir(os, version_id@) && p.complete == complete && plan_follows(
                os,
                p,
                es,
            ),
        },
{
    match read_zip(archive) {
        Some((entries, complete)) => Some(plan_unpack_entries(os, version_id, &entries, complete)),
        None => None,
    }
}

} // verus!
