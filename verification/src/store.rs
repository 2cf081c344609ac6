use vstd::prelude::*;

use pickledb::{PickleDb, PickleDbDumpPolicy, SerializationMethod};

use crate::TaskError;

verus! {

#[verifier::external_type_specification]
#[verifier::external_body]
pub struct ExPickleDb(PickleDb);

/// The string-valued entries of a store: every key of the store's value map
/// whose stored document is a JSON string, mapped to that string.
pub uninterp spec fn kv_strings(db: PickleDb) -> Map<Seq<char>, Seq<char>>;

/// The list-valued entries of a store: every key of the store's value map
/// whose stored document is a JSON array of strings, mapped to that list.
pub uninterp spec fn kv_lists(db: PickleDb) -> Map<Seq<char>, Seq<Seq<char>>>;

/// Every key of the store's value map, whatever document it holds. A key of
/// `kv_strings` or `kv_lists` is always among them; one that holds some
/// other document is among them and in neither view.
pub uninterp spec fn kv_keys(db: PickleDb) -> Set<Seq<char>>;

/// Relies on std::path::Path::exists. The answer depends on the file system,
/// so nothing is promised of it.
#[verifier::external_body]
fn path_exists(path: &str) -> bool {
    std::path::Path::new(path).exists()
}

/// Whether a store file with this name exists.
pub fn db_exists(db_name: &str) -> bool {
    path_exists(db_name)
}

/// Relies on PickleDb::new: the store starts with an empty value map, so both
/// views are empty. Nothing is written until the first change.
#[verifier::external_body]
pub fn new_db(path: &str) -> (r: PickleDb)
    ensures
        kv_strings(r) =~= Map::empty(),
        kv_lists(r) =~= Map::empty(),
        kv_keys(r) =~= Set::empty(),
{
    PickleDb::new(path, PickleDbDumpPolicy::AutoDump, SerializationMethod::Json)
}

/// Relies on PickleDb::load with the JSON serializer: it reads the file and
/// parses it, or reports an I/O or parse error. The contents depend on the
/// file, so nothing is promised of the loaded views. On a file whose bytes
/// are not UTF-8 the underlying reader panics rather than report an error;
/// the library cannot read the file first to screen for that, so the
/// surrounding program must. The bundled command line front end checks both
/// store files for UTF-8 before it calls into the library.
#[verifier::external_body]
pub fn load_db(path: &str) -> (r: Result<PickleDb, TaskError>)
    ensures
        r matches Err(e) ==> e == TaskError::Storage,
{
    PickleDb::load(path, PickleDbDumpPolicy::AutoDump, SerializationMethod::Json).map_err(|_| {
        TaskError::Storage
    })
}

/// Relies on PickleDb::get::<String>: it returns the value stored under the
/// key exactly when that value deserializes as a JSON string.
#[verifier::external_body]
pub fn get_string(db: &PickleDb, key: &str) -> (r: Option<String>)
    ensures
        match r {
            Some(v) => kv_strings(*db).contains_key(key@) && v@ == kv_strings(*db)[key@],
            None => !kv_strings(*db).contains_key(key@),
        },
{
    db.get::<String>(key)
}

/// Relies on PickleDb::get::<Vec<String>>: it returns the value stored under
/// the key exactly when that value deserializes as a JSON array of strings.
#[verifier::external_body]
pub fn get_list(db: &PickleDb, key: &str) -> (r: Option<Vec<String>>)
    ensures
        match r {
            Some(v) => kv_lists(*db).contains_key(key@) && v.deep_view() == kv_lists(*db)[key@],
            None => !kv_lists(*db).contains_key(key@),
        },
{
    db.get::<Vec<String>>(key)
}

/// Relies on PickleDb::set with a String value: it stores the serialized
/// string under the key in the value map and auto-dumps to the file; if the
/// dump fails the value map is rolled back and an error is reported.
#[verifier::external_body]
pub fn set_string(db: &mut PickleDb, key: &str, val: &str) -> (r: Result<(), TaskError>)
    ensures
        r is Ok ==> kv_strings(*final(db)) == kv_strings(*old(db)).insert(key@, val@) && kv_lists(*final(db))
            == kv_lists(*old(db)).remove(key@) && kv_keys(*final(db)) == kv_keys(*old(db)).insert(
            key@,
        ),
        r matches Err(e) ==> e == TaskError::Storage && kv_strings(*final(db)) == kv_strings(*old(db))
            && kv_lists(*final(db)) == kv_lists(*old(db)) && kv_keys(*final(db)) == kv_keys(
            *old(db),
        ),
{
    db.set(key, &String::from(val)).map_err(|_| TaskError::Storage)
}

/// Relies on PickleDb::set with a Vec<String> value: it stores the serialized
/// array under the key in the value map and auto-dumps to the file; if the
/// dump fails the value map is rolled back and an error is reported.
#[verifier::external_body]
pub fn set_list(db: &mut PickleDb, key: &str, val: &Vec<String>) -> (r: Result<(), TaskError>)
    ensures
        r is Ok ==> kv_lists(*final(db)) == kv_lists(*old(db)).insert(key@, val.deep_view())
            && kv_strings(*final(db)) == kv_strings(*old(db)).remove(key@) && kv_keys(*final(db))
            == kv_keys(*old(db)).insert(key@),
        r matches Err(e) ==> e == TaskError::Storage && kv_strings(*final(db)) == kv_strings(*old(db))
            && kv_lists(*final(db)) == kv_lists(*old(db)) && kv_keys(*final(db)) == kv_keys(
            *old(db),
        ),
{
    db.set(key, val).map_err(|_| TaskError::Storage)
}

/// Relies on PickleDb::rem: it removes the key from the value map and
/// auto-dumps. On a dump failure the removal of the value-map entry is rolled
/// back before the error is reported; a later dump failure in the same call
/// can still leave that entry removed.
#[verifier::external_body]
pub fn rem_key(db: &mut PickleDb, key: &str) -> (r: Result<bool, TaskError>)
    ensures
        r is Ok ==> kv_strings(*final(db)) == kv_strings(*old(db)).remove(key@) && kv_lists(*final(db))
            == kv_lists(*old(db)).remove(key@) && kv_keys(*final(db)) == kv_keys(*old(db)).remove(
            key@,
        ),
        r matches Err(e) ==> e == TaskError::Storage && ((kv_strings(*final(db)) == kv_strings(*old(db))
            && kv_lists(*final(db)) == kv_lists(*old(db)) && kv_keys(*final(db)) == kv_keys(
            *old(db),
        )) || (kv_strings(*final(db)) == kv_strings(*old(db)).remove(key@) && kv_lists(*final(db))
            == kv_lists(*old(db)).remove(key@) && kv_keys(*final(db)) == kv_keys(*old(db)).remove(
            key@,
        ))),
{
    db.rem(key).map_err(|_| TaskError::Storage)
}

/// Relies on PickleDb::iter, which yields each pair of the value map exactly
/// once, and on get_value::<String>, which deserializes a stored JSON string.
/// When every stored value is a string the result lists the string view
/// whole: each pair once, in an unspecified order. It refuses only a store
/// holding some key whose document is not a string.
#[verifier::external_body]
pub fn string_entries(db: &PickleDb) -> (r: Option<Vec<(String, String)>>)
    ensures
        r matches Some(v) ==> {
            &&& forall|i: int|
                0 <= i < v@.len() ==> kv_strings(*db).contains_pair(
                    (#[trigger] v@[i]).0@,
                    v@[i].1@,
                )
            &&& forall|i: int, j: int| 0 <= i < j < v@.len() ==> v@[i].0@ != v@[j].0@
            &&& forall|k: Seq<char>| #[trigger]
                kv_strings(*db).contains_key(k) ==> exists|i: int|
                    0 <= i < v@.len() && (#[trigger] v@[i]).0@ == k
            &&& forall|k: Seq<char>| #[trigger]
                kv_strings(*db).contains_key(k) ==> kv_keys(*db).contains(k)
        },
        r is None ==> exists|k: Seq<char>|
            #[trigger] kv_keys(*db).contains(k) && !kv_strings(*db).contains_key(k),
{
    let mut out: Vec<(String, String)> = Vec::new();
    for kv in db.iter() {
        match kv.get_value::<String>() {
            Some(v) => out.push((kv.get_key().to_string(), v)),
            None => return None,
        }
    }
    Some(out)
}

/// Relies on PickleDb::iter, which yields each pair of the value map exactly
/// once, and on get_value::<Vec<String>>, which deserializes a stored JSON
/// array of strings. When every stored value is such an array the result
/// lists the list view whole: each pair once, in an unspecified order. It
/// refuses only a store holding some key whose document is not such an
/// array.
#[verifier::external_body]
pub fn list_entries(db: &PickleDb) -> (r: Option<Vec<(String, Vec<String>)>>)
    ensures
        r matches Some(v) ==> {
            &&& forall|i: int|
                0 <= i < v@.len() ==> kv_lists(*db).contains_pair(
                    (#[trigger] v@[i]).0@,
                    v@[i].1.deep_view(),
                )
            &&& forall|i: int, j: int| 0 <= i < j < v@.len() ==> v@[i].0@ != v@[j].0@
            &&& forall|k: Seq<char>| #[trigger]
                kv_lists(*db).contains_key(k) ==> exists|i: int|
                    0 <= i < v@.len() && (#[trigger] v@[i]).0@ == k
            &&& forall|k: Seq<char>| #[trigger]
                kv_lists(*db).contains_key(k) ==> kv_keys(*db).contains(k)
        },
        r is None ==> exists|k: Seq<char>|
            #[trigger] kv_keys(*db).contains(k) && !kv_lists(*db).contains_key(k),
{
    let mut out: Vec<(String, Vec<String>)> = Vec::new();
    for kv in db.iter() {
        match kv.get_value::<Vec<String>>() {
            Some(v) => out.push((kv.get_key().to_string(), v)),
            None => return None,
        }
    }
    Some(out)
}

} // verus!
