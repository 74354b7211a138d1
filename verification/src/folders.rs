//! Checking wanted folder names against the folders of a tenant.

use vstd::prelude::*;
use crate::model::{first_folder_with_name, lemma_first_folder_with_name, Folder, FolderView, ListOfFolders};
use crate::report::ApiError;
use crate::text::{join_texts, joined};

verus! {

/// The wanted names that no folder has, in the order they were given.
pub open spec fn missing_names(existing: Seq<FolderView>, desired: Seq<Seq<char>>) -> Seq<Seq<char>>
    decreases desired.len(),
{
    if desired.len() == 0 {
        Seq::empty()
    } else {
        let rest = missing_names(existing, desired.drop_last());
        if first_folder_with_name(existing, desired.last()) is None {
            rest.push(desired.last())
        } else {
            rest
        }
    }
}

/// For each wanted name, the first folder with that name.
pub open spec fn named_folders(existing: Seq<FolderView>, desired: Seq<Seq<char>>) -> Seq<FolderView> {
    Seq::new(desired.len(), |i: int| existing[first_folder_with_name(existing, desired[i])->0])
}

pub proof fn lemma_missing_names_empty(existing: Seq<FolderView>, desired: Seq<Seq<char>>)
    requires
        missing_names(existing, desired).len() == 0,
    ensures
        forall|i: int| 0 <= i < desired.len() ==> first_folder_with_name(existing, #[trigger] desired[i]) is Some,
    decreases desired.len(),
{
    if desired.len() > 0 {
        let rest = missing_names(existing, desired.drop_last());
        if first_folder_with_name(existing, desired.last()) is None {
            assert(missing_names(existing, desired).len() == rest.len() + 1);
        }
        lemma_missing_names_empty(existing, desired.drop_last());
        assert forall|i: int| 0 <= i < desired.len() implies first_folder_with_name(
            existing,
            #[trigger] desired[i],
        ) is Some by {
            if i < desired.len() - 1 {
                assert(desired.drop_last()[i] == desired[i]);
            }
        }
    }
}

/// The missing names are exactly the wanted names that no folder has, in
/// the order they were wanted; and each folder chosen for a wanted name
/// that some folder has carries that name.
pub proof fn lemma_missing_names_are_names_without_folder(existing: Seq<FolderView>, desired: Seq<Seq<char>>)
    ensures
        forall|n: Seq<char>|
            #[trigger] missing_names(existing, desired).contains(n) <==> (desired.contains(n) && !exists|k: int|
                0 <= k < existing.len() && (#[trigger] existing[k]).name == n),
        missing_names(existing, desired).len() <= desired.len(),
        forall|i: int|
            0 <= i < desired.len() && (exists|k: int| 0 <= k < existing.len() && (#[trigger] existing[k]).name == desired[i])
                ==> (#[trigger] named_folders(existing, desired)[i]).name == desired[i],
    decreases desired.len(),
{
    assert forall|i: int|
        0 <= i < desired.len() && (exists|k: int| 0 <= k < existing.len() && (#[trigger] existing[k]).name == desired[i])
        implies (#[trigger] named_folders(existing, desired)[i]).name == desired[i] by {
        lemma_first_folder_with_name(existing, desired[i]);
    }
    if desired.len() > 0 {
        let init = desired.drop_last();
        let last = desired.last();
        lemma_missing_names_are_names_without_folder(existing, init);
        lemma_first_folder_with_name(existing, last);
        let rest = missing_names(existing, init);
        let m = missing_names(existing, desired);
        assert forall|n: Seq<char>| #[trigger] m.contains(n) <==> (desired.contains(n) && !exists|k: int|
            0 <= k < existing.len() && (#[trigger] existing[k]).name == n) by {
            if desired.contains(n) {
                let i = choose|i: int| 0 <= i < desired.len() && desired[i] == n;
                if i < init.len() {
                    assert(init[i] == n);
                    assert(init.contains(n));
                }
            }
            if init.contains(n) {
                let i = choose|i: int| 0 <= i < init.len() && init[i] == n;
                assert(desired[i] == n);
            }
            if n == last {
                assert(desired[desired.len() - 1] == n);
            }
            if first_folder_with_name(existing, last) is None {
                assert(m == rest.push(last));
                if m.contains(n) && !rest.contains(n) {
                    let i = choose|i: int| 0 <= i < m.len() && m[i] == n;
                    assert(i == rest.len());
                }
                if rest.contains(n) {
                    let i = choose|i: int| 0 <= i < rest.len() && rest[i] == n;
                    assert(m[i] == n);
                }
                if n == last {
                    assert(m[rest.len() as int] == n);
                }
            }
        }
    }
}

impl ListOfFolders {
    /// A copy of the list.
    pub fn duplicate(&self) -> (copy: ListOfFolders)
        ensures
            copy.spec_folders() == self.spec_folders(),
    {
        let mut folders: Vec<Folder> = Vec::new();
        let mut i: usize = 0;
        while i < self.folders.len()
            invariant
                i <= self.folders.len(),
                folders.deep_view() =~= self.spec_folders().take(i as int),
            decreases self.folders.len() - i,
        {
            let f = self.folders[i].duplicate();
            let ghost before = folders.deep_view();
            folders.push(f);
            proof {
                assert(folders.deep_view() =~= before.push(f@));
            }
            i += 1;
        }
        assert(self.spec_folders().take(self.folders.len() as int) =~= self.spec_folders());
        ListOfFolders { folders }
    }
}

/// The wanted names that no folder has.
#[verifier::rlimit(40)]
fn missing_folder_names(existing_folders: &ListOfFolders, desired_folder_names: &Vec<String>) -> (missing:
    Vec<String>)
    ensures
        missing.deep_view() == missing_names(
            existing_folders.spec_folders(),
            desired_folder_names.deep_view(),
        ),
{
    let ghost existing = existing_folders.spec_folders();
    let ghost desired = desired_folder_names.deep_view();
    let mut missing: Vec<String> = Vec::new();
    let mut i: usize = 0;
    while i < desired_folder_names.len()
        invariant
            i <= desired_folder_names.len(),
            existing == existing_folders.spec_folders(),
            desired == desired_folder_names.deep_view(),
            missing.deep_view() == missing_names(existing, desired.take(i as int)),
        decreases desired_folder_names.len() - i,
    {
        proof {
            assert(desired.take(i + 1).drop_last() =~= desired.take(i as int));
            assert(desired.take(i + 1).last() == desired[i as int]);
        }
        let name = desired_folder_names[i].as_str();
        assert(name@ == desired[i as int]);
        match existing_folders.get_folder_by_name(name) {
            None => {
                let ghost before = missing.deep_view();
                let name = desired_folder_names[i].clone();
                missing.push(name);
                proof {
                    assert(missing.deep_view() =~= before.push(desired[i as int]));
                }
            },
            Some(_) => {},
        }
        i += 1;
    }
    assert(desired.take(desired_folder_names.len() as int) =~= desired);
    missing
}

/// For each wanted name, a copy of the first folder of that name.
fn folders_named(existing_folders: &ListOfFolders, desired_folder_names: &Vec<String>) -> (list:
    ListOfFolders)
    requires
        forall|k: int|
            0 <= k < desired_folder_names@.len() ==> first_folder_with_name(
                existing_folders.spec_folders(),
                #[trigger] desired_folder_names.deep_view()[k],
            ) is Some,
    ensures
        list.spec_folders() == named_folders(
            existing_folders.spec_folders(),
            desired_folder_names.deep_view(),
        ),
{
    let ghost existing = existing_folders.spec_folders();
    let ghost desired = desired_folder_names.deep_view();
    let mut folders: Vec<Folder> = Vec::new();
    let mut j: usize = 0;
    while j < desired_folder_names.len()
        invariant
            j <= desired_folder_names.len(),
            existing == existing_folders.spec_folders(),
            desired == desired_folder_names.deep_view(),
            forall|k: int|
                0 <= k < desired.len() ==> first_folder_with_name(existing, #[trigger] desired[k]) is Some,
            folders.deep_view() =~= named_folders(existing, desired).take(j as int),
        decreases desired_folder_names.len() - j,
    {
        let name = desired_folder_names[j].as_str();
        assert(name@ == desired[j as int]);
        match existing_folders.get_folder_by_name(name) {
            Some(f) => {
                let ghost before = folders.deep_view();
                let copy = f.duplicate();
                folders.push(copy);
                proof {
                    assert(copy@ == named_folders(existing, desired)[j as int]);
                    assert(folders.deep_view() =~= before.push(copy@));
                }
            },
            None => {
                assert(first_folder_with_name(existing, desired[j as int]) is Some);
            },
        }
        j += 1;
    }
    assert(named_folders(existing, desired).take(desired_folder_names.len() as int) =~= named_folders(
        existing,
        desired,
    ));
    ListOfFolders { folders }
}

/// Checks wanted folder names against the folders of the tenant. Fails with
/// the missing names, joined by `, `, when some name is not a folder's;
/// otherwise gives, for each wanted name, the first folder of that name, or
/// every folder when no name is given.
pub fn validate_folders(existing_folders: &ListOfFolders, desired_folder_names: &Vec<String>) -> (r:
    Result<ListOfFolders, ApiError>)
    ensures
        ({
            let missing = missing_names(
                existing_folders.spec_folders(),
                desired_folder_names.deep_view(),
            );
            match r {
                Err(ApiError::FolderNotFound(text)) => missing.len() > 0 && text@ == joined(
                    missing,
                    ", "@,
                ),
                Err(_) => false,
                Ok(list) => missing.len() == 0 && list.spec_folders() == if desired_folder_names@.len()
                    > 0 {
                    named_folders(existing_folders.spec_folders(), desired_folder_names.deep_view())
                } else {
                    existing_folders.spec_folders()
                },
            }
        }),
{
    let missing = missing_folder_names(existing_folders, desired_folder_names);
    if missing.len() > 0 {
        return Err(ApiError::FolderNotFound(join_texts(&missing, ", ")));
    }
    if desired_folder_names.len() > 0 {
        proof {
            lemma_missing_names_empty(
                existing_folders.spec_folders(),
                desired_folder_names.deep_view(),
            );
        }
        Ok(folders_named(existing_folders, desired_folder_names))
    } else {
        Ok(existing_folders.duplicate())
    }
}


} // verus!
