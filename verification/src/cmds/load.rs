//! Taking in targets: which of the files that were found become targets
//! of the catalog.

use crate::chars::{path_extension, text_views};
use crate::engine::traits::LanguageEngine;
use crate::registry::{taking_from, LanguageRegistry};
use crate::store::{target_views, with_id, Catalog, SqlStore};
use crate::text::bytes_of;
use crate::types::config::{is_path_excluded, path_excluded};
use crate::types::error::StoreError;
use crate::types::hash::sha256;
use crate::types::target::{Target, TargetView};
use vstd::prelude::*;

verus! {

/// A file as it was found: its path and its text.
#[derive(Debug, Clone)]
pub struct SourceFile {
    pub path: String,
    pub text: String,
}

/// Why no targets are taken in.
#[derive(Debug)]
pub enum LoadError {
    /// None of the files is a target: each is passed over for its path
    /// or is of no language that takes part.
    NoTargets,
    /// The catalog could not take a target.
    Store(StoreError),
}

/// Whether a file becomes a target: its path holds nothing that is to be
/// ignored, and a rulebook takes its extension.
pub open spec fn is_target(file: SourceFile, ignore: Seq<Seq<char>>, registry: LanguageRegistry) -> bool {
    &&& !path_excluded(file.path@, ignore)
    &&& path_extension(file.path@) matches Some(extension) && taking_from(registry@, extension, 0)
        < registry@.len()
}

/// The target that a file makes, before the catalog gives it an id:
/// its hash is that of its text, and its language that of the first
/// rulebook that takes its extension.
pub open spec fn target_of_file(file: SourceFile, registry: LanguageRegistry) -> TargetView {
    TargetView {
        id: 0,
        path: file.path@,
        file_hash: sha256(bytes_of(file.text@)),
        text: file.text@,
        language: registry@[taking_from(registry@, path_extension(file.path@)->0, 0)].title(),
    }
}

/// The catalog once the first `upto` of the files are taken in: each
/// that becomes a target is added, in the order of the files.
pub open spec fn taken_in(
    catalog: Catalog,
    files: Seq<SourceFile>,
    ignore: Seq<Seq<char>>,
    registry: LanguageRegistry,
    upto: int,
) -> Catalog
    decreases upto,
{
    if upto <= 0 {
        catalog
    } else {
        let before = taken_in(catalog, files, ignore, registry, upto - 1);
        if is_target(files[upto - 1], ignore, registry) {
            before.with_target(target_of_file(files[upto - 1], registry))
        } else {
            before
        }
    }
}

/// The targets that the first `upto` of the files make, in the order of
/// the files, each under the id that the catalog knows it by or gives
/// it.
pub open spec fn targets_taken(
    catalog: Catalog,
    files: Seq<SourceFile>,
    ignore: Seq<Seq<char>>,
    registry: LanguageRegistry,
    upto: int,
) -> Seq<TargetView>
    decreases upto,
{
    if upto <= 0 {
        Seq::empty()
    } else {
        let before = targets_taken(catalog, files, ignore, registry, upto - 1);
        if is_target(files[upto - 1], ignore, registry) {
            let target = target_of_file(files[upto - 1], registry);
            let id = taken_in(catalog, files, ignore, registry, upto - 1).target_id_for(target);
            before.push(with_id(target, id as i64))
        } else {
            before
        }
    }
}

/// Whether the catalog has an id for each target among the first `upto`
/// of the files.
pub open spec fn ids_suffice(
    catalog: Catalog,
    files: Seq<SourceFile>,
    ignore: Seq<Seq<char>>,
    registry: LanguageRegistry,
    upto: int,
) -> bool {
    forall|i: int|
        0 <= i < upto && is_target(#[trigger] files[i], ignore, registry) ==> taken_in(
            catalog,
            files,
            ignore,
            registry,
            i,
        ).target_id_for(target_of_file(files[i], registry)) <= i64::MAX
}

/// No target is taken exactly where none of the files becomes one.
pub proof fn lemma_none_taken(
    catalog: Catalog,
    files: Seq<SourceFile>,
    ignore: Seq<Seq<char>>,
    registry: LanguageRegistry,
    upto: int,
)
    requires
        0 <= upto <= files.len(),
    ensures
        targets_taken(catalog, files, ignore, registry, upto).len() == 0 <==> forall|i: int|
            0 <= i < upto ==> !is_target(#[trigger] files[i], ignore, registry),
        targets_taken(catalog, files, ignore, registry, upto).len() == 0 ==> taken_in(
            catalog,
            files,
            ignore,
            registry,
            upto,
        ) == catalog,
    decreases upto,
{
    if upto > 0 {
        lemma_none_taken(catalog, files, ignore, registry, upto - 1);
        if is_target(files[upto - 1], ignore, registry) {
            assert(targets_taken(catalog, files, ignore, registry, upto).len() > 0);
        }
    }
}

/// Takes the files in as targets of the catalog, in their order, each
/// under the id that the catalog knows it by or gives it. Files whose
/// path holds one of the texts to ignore, and files of no language that
/// takes part, are passed over. Where none is left, that is an error and
/// the catalog stays as it was; so it is where the catalog has no id left
/// for one of them.
pub fn load_targets(
    files: Vec<SourceFile>,
    ignore: &[String],
    store: &mut SqlStore,
    registry: &LanguageRegistry,
) -> (r: Result<Vec<Target>, LoadError>)
    requires
        old(store).wf(),
    ensures
        final(store).wf(),
        final(store)@.mutants == old(store)@.mutants,
        final(store)@.outcomes == old(store)@.outcomes,
        ids_suffice(old(store)@, files@, text_views(ignore@), *registry, files@.len() as int) ==> {
            let taken = targets_taken(
                old(store)@,
                files@,
                text_views(ignore@),
                *registry,
                files@.len() as int,
            );
            &&& final(store)@ == taken_in(
                old(store)@,
                files@,
                text_views(ignore@),
                *registry,
                files@.len() as int,
            )
            &&& taken.len() == 0 ==> r is Err && r->Err_0 is NoTargets
            &&& taken.len() > 0 ==> r is Ok && target_views(r->Ok_0@) == taken
        },
        !ids_suffice(old(store)@, files@, text_views(ignore@), *registry, files@.len() as int)
            ==> r is Err && (r->Err_0 matches LoadError::Store(error) && error is Full),
{
    let ghost first = store@;
    let ghost patterns = text_views(ignore@);
    let mut targets: Vec<Target> = Vec::new();
    let mut at: usize = 0;
    assert(target_views(targets@) =~= Seq::<TargetView>::empty());
    while at < files.len()
        invariant
            0 <= at <= files@.len(),
            first == old(store)@,
            patterns == text_views(ignore@),
            store.wf(),
            store@.mutants == first.mutants,
            store@.outcomes == first.outcomes,
            ids_suffice(first, files@, patterns, *registry, at as int),
            store@ == taken_in(first, files@, patterns, *registry, at as int),
            target_views(targets@) == targets_taken(first, files@, patterns, *registry, at as int),
        decreases files@.len() - at,
    {
        let file = &files[at];
        if !is_path_excluded(file.path.as_str(), ignore) {
            match Target::from_file(file.path.clone(), file.text.clone(), registry) {
                Some(mut target) => {
                    assert(is_target(files@[at as int], patterns, *registry));
                    assert(target@ == target_of_file(files@[at as int], *registry));
                    match store.add_target(target.copy()) {
                        Ok(id) => {
                            target.id = id;
                            assert(target_views(targets@.push(target)) =~= target_views(
                                targets@,
                            ).push(target@));
                            targets.push(target);
                        },
                        Err(error) => {
                            return Err(LoadError::Store(error));
                        },
                    }
                },
                None => {
                    assert(!is_target(files@[at as int], patterns, *registry));
                },
            }
        } else {
            assert(!is_target(files@[at as int], patterns, *registry));
        }
        at += 1;
    }
    if targets.len() == 0 {
        return Err(LoadError::NoTargets);
    }
    Ok(targets)
}

} // verus!
