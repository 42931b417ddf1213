//! The shared scan collections, backed by dashmap.
//!
//! During a scan the walker records one aggregate per path in a concurrent
//! table and tracks two dedup sets. Verus sees the three collections as
//! opaque structs whose contents are named by uninterpreted spec functions;
//! every method the engine uses is a small trusted wrapper around the
//! dashmap call, with its contract stated over those contents.
//!
//! dashmap mutates through `&self` by interior locking, so the collections
//! cannot be declared with `external_type_specification` (a contract on a
//! `&self` method could not speak of the contents changing); they are held
//! in private fields of opaque structs and the wrappers take `&mut self`.

use vstd::prelude::*;

use crate::record::AggregateRecord;
use crate::record::RecordV;

verus! {

/// The aggregate table: one record per visited path.
#[verifier::external_body]
pub struct RecordTable {
    inner: dashmap::DashMap<Vec<String>, AggregateRecord>,
}

/// What the aggregate table holds: each key is a path, mapped to the model
/// of the record stored under it.
pub uninterp spec fn table_view(t: RecordTable) -> Map<Seq<Seq<char>>, RecordV>;

/// The set of paths already taken up by some walker task.
#[verifier::external_body]
pub struct PathSet {
    inner: dashmap::DashSet<Vec<String>>,
}

/// What the path set holds.
pub uninterp spec fn path_set_view(s: PathSet) -> Set<Seq<Seq<char>>>;

/// The set of physical identities (inode and device) already counted.
#[verifier::external_body]
pub struct IdSet {
    inner: dashmap::DashSet<(u64, u64)>,
}

/// What the identity set holds.
pub uninterp spec fn id_set_view(s: IdSet) -> Set<(u64, u64)>;

/// Relies on dashmap::DashMap::new: a fresh map is empty.
#[verifier::external_body]
pub fn table_new() -> (t: RecordTable)
    ensures
        table_view(t) =~= Map::empty(),
{
    RecordTable { inner: dashmap::DashMap::new() }
}

/// Relies on dashmap::DashMap::entry and Entry::or_insert: the record is
/// stored under its path only if that key is still vacant.
#[verifier::external_body]
pub fn table_insert_new(t: &mut RecordTable, rec: AggregateRecord)
    ensures
        table_view(*final(t)) == if table_view(*old(t)).contains_key(rec@.path) {
            table_view(*old(t))
        } else {
            table_view(*old(t)).insert(rec@.path, rec@)
        },
{
    let key = crate::paths::path_clone(&rec.path);
    t.inner.entry(key).or_insert(rec);
}

/// Relies on dashmap::DashMap::insert: the record replaces whatever the
/// map held under its path.
#[verifier::external_body]
pub fn table_overwrite(t: &mut RecordTable, rec: AggregateRecord)
    ensures
        table_view(*final(t)) == table_view(*old(t)).insert(rec@.path, rec@),
{
    let key = crate::paths::path_clone(&rec.path);
    t.inner.insert(key, rec);
}

/// Relies on dashmap::DashMap::get: the result is the record stored under
/// the path, if any; it is handed out as a clone.
#[verifier::external_body]
pub fn table_get(t: &RecordTable, path: &Vec<String>) -> (r: Option<AggregateRecord>)
    ensures
        match r {
            Option::None => !table_view(*t).contains_key(path.deep_view()),
            Option::Some(rec) => table_view(*t).contains_key(path.deep_view())
                && rec@ == table_view(*t)[path.deep_view()],
        },
{
    t.inner.get(path).map(|r| r.value().duplicate())
}

/// Relies on dashmap::DashMap::len: the number of keys held.
#[verifier::external_body]
pub fn table_len(t: &RecordTable) -> (n: usize)
    ensures
        n == table_view(*t).dom().len(),
{
    t.inner.len()
}

/// Relies on dashmap::DashMap::iter: every stored record is yielded exactly
/// once, in no promised order; each is handed out as a clone.
#[verifier::external_body]
pub fn table_entries(t: &RecordTable) -> (v: Vec<AggregateRecord>)
    ensures
        v@.len() == table_view(*t).dom().len(),
        forall|i: int|
            0 <= i < v@.len() ==> #[trigger] table_view(*t).contains_key(v@[i]@.path)
                && v@[i]@ == table_view(*t)[v@[i]@.path],
        forall|i: int, j: int|
            0 <= i < v@.len() && 0 <= j < v@.len() && i != j ==> v@[i]@.path != v@[j]@.path,
        forall|k: Seq<Seq<char>>|
            table_view(*t).contains_key(k) ==> exists|i: int|
                0 <= i < v@.len() && #[trigger] v@[i]@.path == k,
{
    t.inner.iter().map(|r| r.value().duplicate()).collect()
}

/// Relies on dashmap::DashSet::new: a fresh set is empty.
#[verifier::external_body]
pub fn path_set_new() -> (s: PathSet)
    ensures
        path_set_view(s) =~= Set::empty(),
{
    PathSet { inner: dashmap::DashSet::new() }
}

/// Relies on dashmap::DashSet::insert: the path joins the set, and the
/// call reports whether it was new.
#[verifier::external_body]
pub fn path_set_insert(s: &mut PathSet, p: &Vec<String>) -> (is_new: bool)
    ensures
        is_new == !path_set_view(*old(s)).contains(p.deep_view()),
        path_set_view(*final(s)) == path_set_view(*old(s)).insert(p.deep_view()),
{
    s.inner.insert(crate::paths::path_clone(p))
}

/// Relies on dashmap::DashSet::new: a fresh set is empty.
#[verifier::external_body]
pub fn id_set_new() -> (s: IdSet)
    ensures
        id_set_view(s) =~= Set::empty(),
{
    IdSet { inner: dashmap::DashSet::new() }
}

/// Relies on dashmap::DashSet::insert: the identity joins the set, and the
/// call reports whether it was new.
#[verifier::external_body]
pub fn id_set_insert(s: &mut IdSet, id: (u64, u64)) -> (is_new: bool)
    ensures
        is_new == !id_set_view(*old(s)).contains(id),
        id_set_view(*final(s)) == id_set_view(*old(s)).insert(id),
{
    s.inner.insert(id)
}

} // verus!
