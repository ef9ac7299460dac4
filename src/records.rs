//! The two record files: per-app metadata and per-package metadata, each a
//! header and records keyed by id, every record carrying one tree.

use std::collections::HashMap;
use vstd::prelude::*;

use crate::bytes::{fits, le_read_u32, le_read_u64, le_u32, le_u64, take_u32};
use crate::error::VdfrError;
use crate::text::{read_string_table, string_table_at};
use crate::tree::{end_tag, opt_table_model, read_kv, tree_at};
use crate::value::{find_keys, lookup_path, path_model, KeyValues, TreeModel, Value};

verus! {

broadcast use vstd::std_specs::hash::group_hash_axioms;

/// Magic of the older app-file revision, whose keys are inline strings.
pub const VERSION_28: u32 = 0x7564428;
/// Magic of the newer app-file revision, whose keys index a string table.
pub const VERSION_29: u32 = 0x7564429;
/// The id that ends the records of an app file.
pub const APP_END_ID: u32 = 0;
/// The id that ends the records of a package file.
pub const PACKAGE_END_ID: u32 = 0xffff_ffff;

/// One app record.
#[derive(Debug)]
pub struct App {
    pub size: u32,
    pub state: u32,
    pub last_update: u32,
    pub access_token: u64,
    pub checksum_txt: [u8; 20],
    pub checksum_bin: [u8; 20],
    pub change_number: u32,
    pub key_values: KeyValues,
}

/// An app file: its header and its records by id.
#[derive(Debug)]
pub struct AppInfo {
    pub magic: u32,
    pub universe: u32,
    pub apps: HashMap<u32, App>,
}

/// One package record.
#[derive(Debug)]
pub struct Package {
    pub checksum: [u8; 20],
    pub change_number: u32,
    /// An 8-byte field of unknown purpose, kept as read.
    pub pics: u64,
    pub key_values: KeyValues,
}

/// A package file: its header and its records by id.
#[derive(Debug)]
pub struct PackageInfo {
    pub magic: u32,
    pub universe: u32,
    pub packages: HashMap<u32, Package>,
}

/// The mathematical form of an `App`.
pub struct AppModel {
    pub size: u32,
    pub state: u32,
    pub last_update: u32,
    pub access_token: u64,
    pub checksum_txt: Seq<u8>,
    pub checksum_bin: Seq<u8>,
    pub change_number: u32,
    pub key_values: TreeModel,
}

/// The mathematical form of a `Package`.
pub struct PackageModel {
    pub checksum: Seq<u8>,
    pub change_number: u32,
    pub pics: u64,
    pub key_values: TreeModel,
}

/// The mathematical form of an `AppInfo`.
pub struct AppInfoModel {
    pub magic: u32,
    pub universe: u32,
    pub apps: Map<u32, AppModel>,
}

/// The mathematical form of a `PackageInfo`.
pub struct PackageInfoModel {
    pub magic: u32,
    pub universe: u32,
    pub packages: Map<u32, PackageModel>,
}

impl App {
    pub open spec fn model(&self) -> AppModel {
        AppModel {
            size: self.size,
            state: self.state,
            last_update: self.last_update,
            access_token: self.access_token,
            checksum_txt: self.checksum_txt@,
            checksum_bin: self.checksum_bin@,
            change_number: self.change_number,
            key_values: self.key_values.model(),
        }
    }

    /// The value at the end of `keys` in this app's tree (see `find_keys`).
    pub fn get(&self, keys: &[&str]) -> (r: Option<&Value>)
        ensures
            match lookup_path(self.key_values.model(), path_model(keys@)) {
                None => r is None,
                Some(v) => r matches Some(x) && x.model() == v,
            },
    {
        find_keys(&self.key_values, keys)
    }
}

impl Package {
    pub open spec fn model(&self) -> PackageModel {
        PackageModel {
            checksum: self.checksum@,
            change_number: self.change_number,
            pics: self.pics,
            key_values: self.key_values.model(),
        }
    }

    /// The value at the end of `keys` in this package's tree (see `find_keys`).
    pub fn get(&self, keys: &[&str]) -> (r: Option<&Value>)
        ensures
            match lookup_path(self.key_values.model(), path_model(keys@)) {
                None => r is None,
                Some(v) => r matches Some(x) && x.model() == v,
            },
    {
        find_keys(&self.key_values, keys)
    }
}

/// The models of the apps of a map.
pub open spec fn apps_model(m: Map<u32, App>) -> Map<u32, AppModel> {
    m.map_values(|a: App| a.model())
}

/// The models of the packages of a map.
pub open spec fn packages_model(m: Map<u32, Package>) -> Map<u32, PackageModel> {
    m.map_values(|a: Package| a.model())
}

impl AppInfo {
    pub open spec fn model(&self) -> AppInfoModel {
        AppInfoModel { magic: self.magic, universe: self.universe, apps: apps_model(self.apps@) }
    }
}

impl PackageInfo {
    pub open spec fn model(&self) -> PackageInfoModel {
        PackageInfoModel {
            magic: self.magic,
            universe: self.universe,
            packages: packages_model(self.packages@),
        }
    }
}

/// The app record whose fields start at `p` (after its id), and the position
/// after its tree.
pub open spec fn app_at(s: Seq<u8>, p: int, table: Option<Seq<Seq<char>>>) -> Result<
    (AppModel, int),
    VdfrError,
> {
    if !fits(s, p, 64) {
        Err(VdfrError::ReadError)
    } else {
        match tree_at(s, p + 64, end_tag(false), table) {
            Err(e) => Err(e),
            Ok((kv, q)) => Ok(
                (
                    AppModel {
                        size: le_u32(s, p) as u32,
                        state: le_u32(s, p + 4) as u32,
                        last_update: le_u32(s, p + 8) as u32,
                        access_token: le_u64(s, p + 12) as u64,
                        checksum_txt: s.subrange(p + 20, p + 40),
                        change_number: le_u32(s, p + 40) as u32,
                        checksum_bin: s.subrange(p + 44, p + 64),
                        key_values: kv,
                    },
                    q,
                ),
            ),
        }
    }
}

/// The app records from `p` up to the end id, added to `acc`; a later record
/// with an id already present replaces the earlier one.
pub open spec fn apps_from(
    s: Seq<u8>,
    p: int,
    table: Option<Seq<Seq<char>>>,
    acc: Map<u32, AppModel>,
) -> Result<Map<u32, AppModel>, VdfrError>
    decreases s.len() - p,
{
    if !fits(s, p, 4) {
        Err(VdfrError::ReadError)
    } else if le_u32(s, p) == APP_END_ID {
        Ok(acc)
    } else {
        match app_at(s, p + 4, table) {
            Err(e) => Err(e),
            Ok((a, q)) => if p < q <= s.len() {
                apps_from(s, q, table, acc.insert(le_u32(s, p) as u32, a))
            } else {
                Err(VdfrError::ReadError)
            },
        }
    }
}

/// A whole app file: magic, universe, for the newer revision the string
/// table, then the records.
pub open spec fn app_info_of(s: Seq<u8>) -> Result<AppInfoModel, VdfrError> {
    if !fits(s, 0, 4) {
        Err(VdfrError::ReadError)
    } else if le_u32(s, 0) != VERSION_28 && le_u32(s, 0) != VERSION_29 {
        Err(VdfrError::UnsupportedVersion(le_u32(s, 0) as u32))
    } else if !fits(s, 4, 4) {
        Err(VdfrError::ReadError)
    } else {
        let records = if le_u32(s, 0) == VERSION_29 {
            match string_table_at(s, 8) {
                Err(e) => Err(e),
                Ok((t, q)) => apps_from(s, q, Some(t), Map::empty()),
            }
        } else {
            apps_from(s, 8, None, Map::empty())
        };
        match records {
            Err(e) => Err(e),
            Ok(apps) => Ok(
                AppInfoModel { magic: le_u32(s, 0) as u32, universe: le_u32(s, 4) as u32, apps },
            ),
        }
    }
}

/// The package record whose fields start at `p` (after its id), and the
/// position after its tree.
pub open spec fn package_at(s: Seq<u8>, p: int) -> Result<(PackageModel, int), VdfrError> {
    if !fits(s, p, 32) {
        Err(VdfrError::ReadError)
    } else {
        match tree_at(s, p + 32, end_tag(false), None) {
            Err(e) => Err(e),
            Ok((kv, q)) => Ok(
                (
                    PackageModel {
                        checksum: s.subrange(p, p + 20),
                        change_number: le_u32(s, p + 20) as u32,
                        pics: le_u64(s, p + 24) as u64,
                        key_values: kv,
                    },
                    q,
                ),
            ),
        }
    }
}

/// The package records from `p` up to the end id, added to `acc`; a later
/// record with an id already present replaces the earlier one.
pub open spec fn packages_from(s: Seq<u8>, p: int, acc: Map<u32, PackageModel>) -> Result<
    Map<u32, PackageModel>,
    VdfrError,
>
    decreases s.len() - p,
{
    if !fits(s, p, 4) {
        Err(VdfrError::ReadError)
    } else if le_u32(s, p) == PACKAGE_END_ID {
        Ok(acc)
    } else {
        match package_at(s, p + 4) {
            Err(e) => Err(e),
            Ok((a, q)) => if p < q <= s.len() {
                packages_from(s, q, acc.insert(le_u32(s, p) as u32, a))
            } else {
                Err(VdfrError::ReadError)
            },
        }
    }
}

/// A whole package file: magic, universe, then the records.
pub open spec fn package_info_of(s: Seq<u8>) -> Result<PackageInfoModel, VdfrError> {
    if !fits(s, 0, 8) {
        Err(VdfrError::ReadError)
    } else {
        match packages_from(s, 8, Map::empty()) {
            Err(e) => Err(e),
            Ok(packages) => Ok(
                PackageInfoModel {
                    magic: le_u32(s, 0) as u32,
                    universe: le_u32(s, 4) as u32,
                    packages,
                },
            ),
        }
    }
}

/// The 20 bytes at `pos`.
fn take_checksum(data: &[u8], pos: usize) -> (r: [u8; 20])
    requires
        fits(data@, pos as int, 20),
    ensures
        r@ == data@.subrange(pos as int, pos + 20),
{
    let len: usize = data.len();
    let mut c: [u8; 20] = [0u8; 20];
    let mut i: usize = 0;
    while i < 20
        invariant
            len == data@.len(),
            fits(data@, pos as int, 20),
            i <= 20,
            c@.len() == 20,
            forall|j: int| 0 <= j < i ==> c@[j] == data@[pos + j],
        decreases 20 - i,
    {
        c[i] = data[pos + i];
        i = i + 1;
    }
    assert(c@ =~= data@.subrange(pos as int, pos + 20));
    c
}

/// The model of a decoded app and the position after it.
pub open spec fn app_result(r: Result<(App, usize), VdfrError>) -> Result<(AppModel, int), VdfrError> {
    match r {
        Ok((a, q)) => Ok((a.model(), q as int)),
        Err(e) => Err(e),
    }
}

/// The model of a decoded package and the position after it.
pub open spec fn package_result(r: Result<(Package, usize), VdfrError>) -> Result<
    (PackageModel, int),
    VdfrError,
> {
    match r {
        Ok((a, q)) => Ok((a.model(), q as int)),
        Err(e) => Err(e),
    }
}

/// Read the fields and tree of the app record starting at `pos`.
fn read_app(data: &[u8], pos: usize, string_table: &Option<Vec<String>>) -> (r: Result<
    (App, usize),
    VdfrError,
>)
    requires
        pos <= data@.len(),
    ensures
        app_result(r) == app_at(data@, pos as int, opt_table_model(*string_table)),
        r matches Ok((_, q)) ==> pos < q <= data@.len(),
{
    if data.len() - pos < 64 {
        return Err(VdfrError::ReadError);
    }
    let size = le_read_u32(data, pos);
    let state = le_read_u32(data, pos + 4);
    let last_update = le_read_u32(data, pos + 8);
    let access_token = le_read_u64(data, pos + 12);
    let checksum_txt = take_checksum(data, pos + 20);
    let change_number = le_read_u32(data, pos + 40);
    let checksum_bin = take_checksum(data, pos + 44);
    let (key_values, q) = match read_kv(data, pos + 64, false, string_table) {
        Ok(kq) => kq,
        Err(e) => return Err(e),
    };
    let app = App {
        size,
        state,
        last_update,
        access_token,
        checksum_txt,
        checksum_bin,
        change_number,
        key_values,
    };
    Ok((app, q))
}

/// Read the fields and tree of the package record starting at `pos`.
fn read_package(data: &[u8], pos: usize) -> (r: Result<(Package, usize), VdfrError>)
    requires
        pos <= data@.len(),
    ensures
        package_result(r) == package_at(data@, pos as int),
        r matches Ok((_, q)) ==> pos < q <= data@.len(),
{
    if data.len() - pos < 32 {
        return Err(VdfrError::ReadError);
    }
    let checksum = take_checksum(data, pos);
    let change_number = le_read_u32(data, pos + 20);
    let pics = le_read_u64(data, pos + 24);
    let (key_values, q) = match read_kv(data, pos + 32, false, &None) {
        Ok(kq) => kq,
        Err(e) => return Err(e),
    };
    Ok((Package { checksum, change_number, pics, key_values }, q))
}

/// The app records from `pos` up to the end id, by id.
fn read_apps(data: &[u8], pos: usize, string_table: &Option<Vec<String>>) -> (r: Result<
    HashMap<u32, App>,
    VdfrError,
>)
    requires
        pos <= data@.len(),
    ensures
        match apps_from(data@, pos as int, opt_table_model(*string_table), Map::empty()) {
            Ok(m) => r matches Ok(x) && apps_model(x@) == m,
            Err(e) => r == Err::<HashMap<u32, App>, VdfrError>(e),
        },
{
    let ghost s = data@;
    let ghost tm = opt_table_model(*string_table);
    let len: usize = data.len();
    let mut apps: HashMap<u32, App> = HashMap::new();
    let mut cur: usize = pos;
    assert(apps_model(apps@) =~= Map::empty());
    loop
        invariant
            len == data@.len(),
            s == data@,
            tm == opt_table_model(*string_table),
            pos <= cur <= len,
            apps_from(s, pos as int, tm, Map::empty()) == apps_from(
                s,
                cur as int,
                tm,
                apps_model(apps@),
            ),
        decreases len - cur,
    {
        let id = match take_u32(data, cur) {
            Ok(v) => v,
            Err(e) => return Err(e),
        };
        if id == APP_END_ID {
            return Ok(apps);
        }
        let (app, q) = match read_app(data, cur + 4, string_table) {
            Ok(aq) => aq,
            Err(e) => return Err(e),
        };
        let ghost before = apps@;
        let ghost am = app.model();
        apps.insert(id, app);
        assert(apps_model(apps@) =~= apps_model(before).insert(id, am));
        cur = q;
    }
}

/// The package records from `pos` up to the end id, by id.
fn read_packages(data: &[u8], pos: usize) -> (r: Result<HashMap<u32, Package>, VdfrError>)
    requires
        pos <= data@.len(),
    ensures
        match packages_from(data@, pos as int, Map::empty()) {
            Ok(m) => r matches Ok(x) && packages_model(x@) == m,
            Err(e) => r == Err::<HashMap<u32, Package>, VdfrError>(e),
        },
{
    let ghost s = data@;
    let len: usize = data.len();
    let mut packages: HashMap<u32, Package> = HashMap::new();
    let mut cur: usize = pos;
    assert(packages_model(packages@) =~= Map::empty());
    loop
        invariant
            len == data@.len(),
            s == data@,
            pos <= cur <= len,
            packages_from(s, pos as int, Map::empty()) == packages_from(
                s,
                cur as int,
                packages_model(packages@),
            ),
        decreases len - cur,
    {
        let id = match take_u32(data, cur) {
            Ok(v) => v,
            Err(e) => return Err(e),
        };
        if id == PACKAGE_END_ID {
            return Ok(packages);
        }
        let (package, q) = match read_package(data, cur + 4) {
            Ok(pq) => pq,
            Err(e) => return Err(e),
        };
        let ghost before = packages@;
        let ghost pm = package.model();
        packages.insert(id, package);
        assert(packages_model(packages@) =~= packages_model(before).insert(id, pm));
        cur = q;
    }
}

impl AppInfo {
    /// Decode a whole app file: the magic (one of the two revisions, else
    /// `UnsupportedVersion`), the universe, the string table for the newer
    /// revision, then the records up to id 0.
    pub fn read(data: &[u8]) -> (r: Result<AppInfo, VdfrError>)
        ensures
            match app_info_of(data@) {
                Ok(m) => r matches Ok(x) && x.model() == m,
                Err(e) => r == Err::<AppInfo, VdfrError>(e),
            },
    {
        let magic = match take_u32(data, 0) {
            Ok(v) => v,
            Err(e) => return Err(e),
        };
        if magic != VERSION_28 && magic != VERSION_29 {
            return Err(VdfrError::UnsupportedVersion(magic));
        }
        let universe = match take_u32(data, 4) {
            Ok(v) => v,
            Err(e) => return Err(e),
        };
        let (string_table, start) = if magic == VERSION_29 {
            match read_string_table(data, 8) {
                Ok((t, q)) => (Some(t), q),
                Err(e) => return Err(e),
            }
        } else {
            (None, 8)
        };
        let apps = match read_apps(data, start, &string_table) {
            Ok(m) => m,
            Err(e) => return Err(e),
        };
        Ok(AppInfo { magic, universe, apps })
    }
}

impl PackageInfo {
    /// Decode a whole package file: the magic and universe, taken as they
    /// are, then the records up to id `0xffffffff`.
    pub fn read(data: &[u8]) -> (r: Result<PackageInfo, VdfrError>)
        ensures
            match package_info_of(data@) {
                Ok(m) => r matches Ok(x) && x.model() == m,
                Err(e) => r == Err::<PackageInfo, VdfrError>(e),
            },
    {
        let magic = match take_u32(data, 0) {
            Ok(v) => v,
            Err(e) => return Err(e),
        };
        let universe = match take_u32(data, 4) {
            Ok(v) => v,
            Err(e) => return Err(e),
        };
        let packages = match read_packages(data, 8) {
            Ok(m) => m,
            Err(e) => return Err(e),
        };
        Ok(PackageInfo { magic, universe, packages })
    }
}

} // verus!
