use vstd::prelude::*;

use vstd::string::StringExecFns;

verus! {

/// A project or recipe folder that holds all three required files, with
/// their full paths.
#[derive(Debug)]
pub struct FileEntry {
    pub folder: String,
    pub folder_path: String,
    pub dc_bit: String,
    pub cons: String,
    pub meta: String,
}

impl Clone for FileEntry {
    fn clone(&self) -> (r: Self)
        ensures
            r == *self,
    {
        FileEntry {
            folder: self.folder.clone(),
            folder_path: self.folder_path.clone(),
            dc_bit: self.dc_bit.clone(),
            cons: self.cons.clone(),
            meta: self.meta.clone(),
        }
    }
}

/// One file of a scanned folder: its bare name and its full path.
#[derive(Debug)]
pub struct FileItem {
    pub name: String,
    pub path: String,
}

/// One subfolder of a scanned directory: its name, its full path, and the
/// files it holds.
#[derive(Debug)]
pub struct FolderListing {
    pub name: String,
    pub path: String,
    pub files: Vec<FileItem>,
}

/// The scan result: the qualifying project folders and recipe folders.
#[derive(Debug)]
pub struct ScanResult {
    pub projects: Vec<FileEntry>,
    pub recipes: Vec<FileEntry>,
}

/// The path of the last file whose name is exactly `folder` followed by
/// `suffix`.
pub open spec fn spec_find_file(
    files: Seq<FileItem>,
    folder: Seq<char>,
    suffix: Seq<char>,
) -> Option<String>
    decreases files.len(),
{
    if files.len() == 0 {
        None
    } else if files.last().name@ == folder + suffix {
        Some(files.last().path)
    } else {
        spec_find_file(files.drop_last(), folder, suffix)
    }
}

/// The entry a folder yields: all three required files must be present,
/// each found by its exact `<folder>_<kind>` name.
pub open spec fn spec_scan_folder(listing: FolderListing) -> Option<FileEntry> {
    match (
        spec_find_file(listing.files@, listing.name@, "_dc_bit.bit"@),
        spec_find_file(listing.files@, listing.name@, "_cons.xml"@),
        spec_find_file(listing.files@, listing.name@, "_meta.json"@),
    ) {
        (Some(d), Some(c), Some(m)) => Some(
            (FileEntry {
                folder: listing.name,
                folder_path: listing.path,
                dc_bit: d,
                cons: c,
                meta: m,
            }),
        ),
        _ => None,
    }
}

/// The entries of the folders that qualify, in listing order.
pub open spec fn spec_scan_dir(listings: Seq<FolderListing>) -> Seq<FileEntry>
    decreases listings.len(),
{
    if listings.len() == 0 {
        Seq::empty()
    } else {
        let rest = spec_scan_dir(listings.drop_last());
        match spec_scan_folder(listings.last()) {
            Some(e) => rest.push(e),
            None => rest,
        }
    }
}

/// Finds the last file named exactly `folder + suffix` and hands back its
/// path.
fn find_file(files: &Vec<FileItem>, folder: &String, suffix: &str) -> (r: Option<String>)
    ensures
        match spec_find_file(files@, folder@, suffix@) {
            Some(p) => r is Some && r->Some_0 == p,
            None => r is None,
        },
{
    let target: String = folder.clone().concat(suffix);
    let mut i: usize = files.len();
    assert(files@.take(i as int) =~= files@);
    while i > 0
        invariant
            i <= files@.len(),
            target@ == folder@ + suffix@,
            spec_find_file(files@, folder@, suffix@) == spec_find_file(
                files@.take(i as int),
                folder@,
                suffix@,
            ),
        decreases i,
    {
        i = i - 1;
        assert(files@.take(i as int + 1).drop_last() =~= files@.take(i as int));
        assert(files@.take(i as int + 1).last() == files@[i as int]);
        if files[i].name == target {
            return Some(files[i].path.clone());
        }
    }
    assert(files@.take(0).len() == 0);
    None
}

/// Scans one folder's files for the three required ones; a folder missing
/// any of them yields nothing.
pub fn scan_folder(listing: &FolderListing) -> (r: Option<FileEntry>)
    ensures
        match spec_scan_folder(*listing) {
            Some(e) => r is Some && r->Some_0 == e,
            None => r is None,
        },
{
    let dc_bit = find_file(&listing.files, &listing.name, "_dc_bit.bit");
    let cons = find_file(&listing.files, &listing.name, "_cons.xml");
    let meta = find_file(&listing.files, &listing.name, "_meta.json");
    match (dc_bit, cons, meta) {
        (Some(d), Some(c), Some(m)) => Some(
            FileEntry {
                folder: listing.name.clone(),
                folder_path: listing.path.clone(),
                dc_bit: d,
                cons: c,
                meta: m,
            },
        ),
        _ => None,
    }
}

fn scan_dir(listings: &Vec<FolderListing>) -> (r: Vec<FileEntry>)
    ensures
        r@ == spec_scan_dir(listings@),
{
    let mut out: Vec<FileEntry> = Vec::new();
    let n = listings.len();
    let mut i: usize = 0;
    assert(listings@.take(0) =~= Seq::<FolderListing>::empty());
    while i < n
        invariant
            n == listings@.len(),
            i <= n,
            out@ == spec_scan_dir(listings@.take(i as int)),
        decreases n - i,
    {
        proof {
            assert(listings@.take(i as int + 1).drop_last() =~= listings@.take(i as int));
            assert(listings@.take(i as int + 1).last() == listings@[i as int]);
        }
        match scan_folder(&listings[i]) {
            Some(e) => {
                out.push(e);
            },
            None => {},
        }
        i = i + 1;
    }
    assert(listings@.take(n as int) =~= listings@);
    out
}

/// Builds the scan result from the listed subfolders of the projects and
/// recipes directories: only subfolders holding all three required files
/// are included, in listing order.
pub fn scan(projects: &Vec<FolderListing>, recipes: &Vec<FolderListing>) -> (r: ScanResult)
    ensures
        r.projects@ == spec_scan_dir(projects@),
        r.recipes@ == spec_scan_dir(recipes@),
{
    ScanResult { projects: scan_dir(projects), recipes: scan_dir(recipes) }
}

/// The first entry whose folder name matches.
pub open spec fn spec_find_entry(entries: Seq<FileEntry>, folder: Seq<char>) -> Option<FileEntry>
    decreases entries.len(),
{
    if entries.len() == 0 {
        None
    } else if entries.first().folder@ == folder {
        Some(entries.first())
    } else {
        spec_find_entry(entries.drop_first(), folder)
    }
}

/// Finds an entry by its folder name.
pub fn find_file_entry_by_folder<'a>(entries: &'a [FileEntry], folder_name: &str) -> (r: Option<
    &'a FileEntry,
>)
    ensures
        match spec_find_entry(entries@, folder_name@) {
            Some(e) => r is Some && *r->Some_0 == e,
            None => r is None,
        },
{
    let target: String = folder_name.to_owned();
    let n = entries.len();
    let mut i: usize = 0;
    assert(entries@.skip(0) =~= entries@);
    while i < n
        invariant
            n == entries@.len(),
            i <= n,
            target@ == folder_name@,
            spec_find_entry(entries@, folder_name@) == spec_find_entry(
                entries@.skip(i as int),
                folder_name@,
            ),
        decreases n - i,
    {
        assert(entries@.skip(i as int).first() == entries@[i as int]);
        if entries[i].folder == target {
            return Some(&entries[i]);
        }
        assert(entries@.skip(i as int).drop_first() =~= entries@.skip(i as int + 1));
        i = i + 1;
    }
    assert(entries@.skip(n as int).len() == 0);
    None
}

} // verus!
