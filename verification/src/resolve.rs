//! Turning candidates into the entries of the module list.

use vstd::prelude::*;

use crate::bytes::{copy_name_or_empty, name_or_empty};
use crate::error::{resolve_error_views, ModuleResolveError, ModuleResolveErrorView};
use crate::module::{
    candidate_views, module_views, ModuleCandidate, ModuleCandidateView, ModuleInfo,
    ModuleInfoView,
};
use crate::resolve_laws::law_what_can_be_resolved;

verus! {

/// The modules that the user supplied.
pub open spec fn user_modules(candidates: Seq<ModuleCandidateView>) -> Seq<ModuleCandidateView> {
    candidates.filter(|module: ModuleCandidateView| module.is_user())
}

/// The modules that were detected in the process.
pub open spec fn detected_modules(candidates: Seq<ModuleCandidateView>) -> Seq<
    ModuleCandidateView,
> {
    candidates.filter(|module: ModuleCandidateView| !module.is_user())
}

/// Whether some module's extent contains `address`.
pub open spec fn any_contains(modules: Seq<ModuleCandidateView>, address: usize) -> bool {
    exists|i: int| 0 <= i < modules.len() && (#[trigger] modules[i]).contains_address(address)
}

/// The modules that start outside the extent of every module of `users`.
pub open spec fn starting_outside(
    modules: Seq<ModuleCandidateView>,
    users: Seq<ModuleCandidateView>,
) -> Seq<ModuleCandidateView> {
    modules.filter(|module: ModuleCandidateView| !any_contains(users, module.base_address))
}

/// Index of the first module whose extent contains `address`, if any.
pub open spec fn first_containing(modules: Seq<ModuleCandidateView>, address: usize) -> Option<int>
    decreases modules.len(),
{
    if modules.len() == 0 {
        None
    } else {
        match first_containing(modules.drop_last(), address) {
            Some(index) => Some(index),
            None => if modules.last().contains_address(address) {
                Some(modules.len() - 1)
            } else {
                None
            },
        }
    }
}

/// The modules, with the first one that contains the entry point swapped to the
/// front.
pub open spec fn main_module_first(
    modules: Seq<ModuleCandidateView>,
    entry_point: Option<usize>,
) -> Seq<ModuleCandidateView> {
    match entry_point {
        Some(address) => match first_containing(modules, address) {
            Some(index) => modules.update(0, modules[index]).update(index, modules[0]),
            None => modules,
        },
        None => modules,
    }
}

/// The candidates that survive, in the order of the module list.
pub open spec fn surviving_modules(
    candidates: Seq<ModuleCandidateView>,
    entry_point: Option<usize>,
) -> Seq<ModuleCandidateView> {
    let users = user_modules(candidates);
    main_module_first(starting_outside(detected_modules(candidates), users), entry_point) + users
}

/// Where the modules start.
pub open spec fn base_addresses(modules: Seq<ModuleCandidateView>) -> Seq<usize> {
    modules.map_values(|module: ModuleCandidateView| module.base_address)
}

/// The lowest of `claims` above `address`, if any.
pub open spec fn lowest_above(claims: Seq<usize>, address: usize) -> Option<usize>
    decreases claims.len(),
{
    if claims.len() == 0 {
        None
    } else {
        let rest = lowest_above(claims.drop_last(), address);
        let claim = claims.last();
        if claim > address && (rest matches Some(lowest) ==> claim < lowest) {
            Some(claim)
        } else {
            rest
        }
    }
}

/// The module, ending no later than where the next of `modules` starts.
pub open spec fn clamped(
    module: ModuleCandidateView,
    modules: Seq<ModuleCandidateView>,
) -> ModuleCandidateView {
    match lowest_above(base_addresses(modules), module.base_address) {
        Some(claim) if claim < module.end_address => ModuleCandidateView {
            end_address: claim,
            ..module
        },
        _ => module,
    }
}

/// All modules, each of them clamped.
pub open spec fn clamped_modules(modules: Seq<ModuleCandidateView>) -> Seq<ModuleCandidateView> {
    modules.map_values(|module: ModuleCandidateView| clamped(module, modules))
}

/// What is reported of clamping a module: that executable code was cut off.
pub open spec fn clamp_report(
    module: ModuleCandidateView,
    modules: Seq<ModuleCandidateView>,
) -> Seq<ModuleResolveErrorView> {
    let now = clamped(module, modules);
    if now.end_address < module.end_address && now.end_address < module.code_end {
        seq![
            ModuleResolveErrorView::ModuleImageClamped {
                name: name_or_empty(module.name),
                base_address: module.base_address,
                code_end: module.code_end,
                clamped_to: now.end_address,
            },
        ]
    } else {
        Seq::empty()
    }
}

/// What is reported of clamping the first `count` modules.
pub open spec fn clamp_reports(modules: Seq<ModuleCandidateView>, count: nat) -> Seq<
    ModuleResolveErrorView,
>
    decreases count,
{
    if count == 0 {
        Seq::empty()
    } else {
        clamp_reports(modules, (count - 1) as nat) + clamp_report(modules[count - 1], modules)
    }
}

/// Whether one of the first `count` modules starts at `address`.
pub open spec fn starts_among(
    modules: Seq<ModuleCandidateView>,
    count: int,
    address: usize,
) -> bool {
    exists|i: int| 0 <= i < count && (#[trigger] modules[i]).base_address == address
}

/// What is reported of the first `count` user-supplied modules: those that start
/// where an earlier one does.
pub open spec fn duplicate_reports(users: Seq<ModuleCandidateView>, count: nat) -> Seq<
    ModuleResolveErrorView,
>
    decreases count,
{
    if count == 0 {
        Seq::empty()
    } else {
        let reports = duplicate_reports(users, (count - 1) as nat);
        let module = users[count - 1];
        if starts_among(users, count - 1, module.base_address) {
            reports.push(
                ModuleResolveErrorView::DuplicateUserModule {
                    name: name_or_empty(module.name),
                    base_address: module.base_address,
                },
            )
        } else {
            reports
        }
    }
}

/// The module list that `candidates` resolve to.
pub open spec fn resolved_modules(
    candidates: Seq<ModuleCandidateView>,
    entry_point: Option<usize>,
) -> Seq<ModuleInfoView> {
    clamped_modules(surviving_modules(candidates, entry_point)).map_values(
        |module: ModuleCandidateView| module.into_module(),
    )
}

/// Everything that is reported of resolving `candidates`.
pub open spec fn resolve_reports(
    candidates: Seq<ModuleCandidateView>,
    entry_point: Option<usize>,
) -> Seq<ModuleResolveErrorView> {
    let users = user_modules(candidates);
    let surviving = surviving_modules(candidates, entry_point);
    duplicate_reports(users, users.len()) + clamp_reports(surviving, surviving.len())
}

/// Whether every module that survives ends where it starts or later.
pub open spec fn survivors_wf(
    candidates: Seq<ModuleCandidateView>,
    entry_point: Option<usize>,
) -> bool {
    let surviving = surviving_modules(candidates, entry_point);
    forall|i: int| 0 <= i < surviving.len() ==> (#[trigger] surviving[i]).wf()
}

/// Splits the candidates into those the user supplied and those detected in the
/// process, keeping the order of both.
fn partition_candidates(candidates: Vec<ModuleCandidate>) -> (parts: (
    Vec<ModuleCandidate>,
    Vec<ModuleCandidate>,
))
    ensures
        candidate_views(parts.0@) == user_modules(candidate_views(candidates@)),
        candidate_views(parts.1@) == detected_modules(candidate_views(candidates@)),
{
    let ghost all = candidate_views(candidates@);
    let ghost list = candidates@;
    let mut users: Vec<ModuleCandidate> = Vec::new();
    let mut detected: Vec<ModuleCandidate> = Vec::new();
    assert(all.take(0) =~= Seq::empty());
    assert(candidate_views(users@) =~= user_modules(all.take(0)));
    assert(candidate_views(detected@) =~= detected_modules(all.take(0)));
    for candidate in iter: candidates
        invariant
            iter.seq() == list,
            all == candidate_views(list),
            candidate_views(users@) == user_modules(all.take(iter.index() as int)),
            candidate_views(detected@) == detected_modules(all.take(iter.index() as int)),
    {
        let ghost i = iter.index() as int;
        let ghost before_users = users@;
        let ghost before_detected = detected@;
        proof {
            assert(candidate == list[i]);
            assert(all.take(i + 1).drop_last() =~= all.take(i));
            assert(all.take(i + 1).last() == candidate@);
            reveal(Seq::filter);
        }
        if candidate.source.is_user() {
            users.push(candidate);
            assert(candidate_views(users@) =~= candidate_views(before_users).push(candidate@));
        } else {
            detected.push(candidate);
            assert(candidate_views(detected@) =~= candidate_views(before_detected).push(candidate@));
        }
    }
    assert(all.take(all.len() as int) =~= all);
    (users, detected)
}

/// Sanity check on the user-provided modules: if they happen to start at the
/// same place, report it and keep them both, as we don't have enough data to
/// prioritize one.
fn report_duplicates(users: &Vec<ModuleCandidate>, soft_errors: &mut Vec<ModuleResolveError>)
    ensures
        resolve_error_views(final(soft_errors)@) == resolve_error_views(old(soft_errors)@)
            + duplicate_reports(candidate_views(users@), users@.len()),
{
    let ghost views = candidate_views(users@);
    let ghost before = resolve_error_views(soft_errors@);
    assert(before + duplicate_reports(views, 0) =~= before);
    for index in 0..users.len()
        invariant
            views == candidate_views(users@),
            resolve_error_views(soft_errors@) == before + duplicate_reports(views, index as nat),
    {
        let base_address: usize = users[index].base_address;
        let mut duplicate: bool = false;
        for earlier in 0..index
            invariant
                index < users@.len(),
                views == candidate_views(users@),
                duplicate == starts_among(views, earlier as int, base_address),
        {
            assert(views[earlier as int] == users@[earlier as int]@);
            if users[earlier].base_address == base_address {
                duplicate = true;
            }
        }
        let ghost reported = soft_errors@;
        assert(views[index as int] == users@[index as int]@);
        if duplicate {
            soft_errors.push(
                ModuleResolveError::DuplicateUserModule {
                    name: copy_name_or_empty(&users[index].name),
                    base_address,
                },
            );
            assert(resolve_error_views(soft_errors@) =~= resolve_error_views(reported).push(
                soft_errors@.last()@,
            ));
            assert(before + duplicate_reports(views, index as nat).push(soft_errors@.last()@)
                =~= (before + duplicate_reports(views, index as nat)).push(soft_errors@.last()@));
        }
    }
}

/// Whether the extent of one of the modules contains `address`.
fn any_module_contains(modules: &Vec<ModuleCandidate>, address: usize) -> (found: bool)
    ensures
        found == any_contains(candidate_views(modules@), address),
{
    let ghost views = candidate_views(modules@);
    for i in 0..modules.len()
        invariant
            views == candidate_views(modules@),
            forall|j: int| 0 <= j < i ==> !(#[trigger] views[j]).contains_address(address),
    {
        assert(views[i as int] == modules@[i as int]@);
        if modules[i].contains_address(address) {
            return true;
        }
    }
    false
}

/// Any detected module that starts within a user-provided module must be
/// dropped, as just keeping the tail would make its addresses unresolvable
/// anyway.
fn drop_overridden(detected: Vec<ModuleCandidate>, users: &Vec<ModuleCandidate>) -> (kept: Vec<
    ModuleCandidate,
>)
    ensures
        candidate_views(kept@) == starting_outside(
            candidate_views(detected@),
            candidate_views(users@),
        ),
{
    let ghost all = candidate_views(detected@);
    let ghost list = detected@;
    let ghost user_views = candidate_views(users@);
    let mut kept: Vec<ModuleCandidate> = Vec::new();
    assert(all.take(0) =~= Seq::empty());
    assert(candidate_views(kept@) =~= starting_outside(all.take(0), user_views));
    for candidate in iter: detected
        invariant
            iter.seq() == list,
            all == candidate_views(list),
            user_views == candidate_views(users@),
            candidate_views(kept@) == starting_outside(all.take(iter.index() as int), user_views),
    {
        let ghost i = iter.index() as int;
        let ghost before = kept@;
        proof {
            assert(candidate == list[i]);
            assert(all.take(i + 1).drop_last() =~= all.take(i));
            assert(all.take(i + 1).last() == candidate@);
            reveal(Seq::filter);
        }
        if !any_module_contains(users, candidate.base_address) {
            kept.push(candidate);
            assert(candidate_views(kept@) =~= candidate_views(before).push(candidate@));
        }
    }
    assert(all.take(all.len() as int) =~= all);
    kept
}

/// Index of the first module whose extent contains `address`.
fn position_containing(modules: &Vec<ModuleCandidate>, address: usize) -> (index: Option<usize>)
    ensures
        match index {
            Some(found) => first_containing(candidate_views(modules@), address) == Some(
                found as int,
            ) && found < modules@.len(),
            None => first_containing(candidate_views(modules@), address) is None,
        },
{
    let ghost views = candidate_views(modules@);
    for i in 0..modules.len()
        invariant
            views == candidate_views(modules@),
            first_containing(views.take(i as int), address) is None,
    {
        assert(views.take(i + 1).drop_last() =~= views.take(i as int));
        assert(views.take(i + 1).last() == modules@[i as int]@);
        if modules[i].contains_address(address) {
            proof {
                lemma_first_containing_prefix(views, address, i + 1);
            }
            return Some(i);
        }
    }
    assert(views.take(views.len() as int) =~= views);
    None
}

/// What is found first in a prefix is found first in the whole.
proof fn lemma_first_containing_prefix(
    modules: Seq<ModuleCandidateView>,
    address: usize,
    count: int,
)
    requires
        0 <= count <= modules.len(),
        first_containing(modules.take(count), address) is Some,
    ensures
        first_containing(modules, address) == first_containing(modules.take(count), address),
    decreases modules.len(),
{
    if count == modules.len() {
        assert(modules.take(count) =~= modules);
    } else {
        assert(modules.drop_last().take(count) =~= modules.take(count));
        lemma_first_containing_prefix(modules.drop_last(), address, count);
    }
}

/// If a module contains the entry-point, and it's not already the first one,
/// then we need to make it be first. This is because the minidump format
/// assumes the first module is the one that corresponds to the main executable
/// (as codified in processor/minidump.cc:MinidumpModuleList::GetMainModule()).
fn move_main_module_first(modules: &mut Vec<ModuleCandidate>, entry_point: Option<usize>)
    ensures
        candidate_views(final(modules)@) == main_module_first(
            candidate_views(old(modules)@),
            entry_point,
        ),
{
    let ghost before = modules@;
    if let Some(address) = entry_point {
        if let Some(index) = position_containing(modules, address) {
            if index > 0 {
                let mut other: ModuleCandidate = modules.remove(index);
                modules.set_and_swap(0, &mut other);
                modules.insert(index, other);
            }
            assert(modules@ =~= before.update(0, before[index as int]).update(
                index as int,
                before[0],
            ));
            assert(candidate_views(modules@) =~= main_module_first(
                candidate_views(before),
                entry_point,
            ));
        }
    }
}

/// The lowest of `claims` above `address`.
fn next_claim(claims: &Vec<usize>, address: usize) -> (next: Option<usize>)
    ensures
        next == lowest_above(claims@, address),
{
    let mut lowest: Option<usize> = None;
    for i in 0..claims.len()
        invariant
            lowest == lowest_above(claims@.take(i as int), address),
    {
        assert(claims@.take(i + 1).drop_last() =~= claims@.take(i as int));
        let claim: usize = claims[i];
        if claim > address {
            match lowest {
                Some(other) => {
                    if claim < other {
                        lowest = Some(claim);
                    }
                },
                None => {
                    lowest = Some(claim);
                },
            }
        }
    }
    assert(claims@.take(claims@.len() as int) =~= claims@);
    lowest
}

/// Shortens any module whose image overlaps another entry of the module list.
pub fn clamp_overlapping_modules(
    modules: &mut Vec<ModuleCandidate>,
    soft_errors: &mut Vec<ModuleResolveError>,
)
    ensures
        candidate_views(final(modules)@) == clamped_modules(candidate_views(old(modules)@)),
        resolve_error_views(final(soft_errors)@) == resolve_error_views(old(soft_errors)@)
            + clamp_reports(candidate_views(old(modules)@), old(modules)@.len()),
{
    let ghost before = candidate_views(modules@);
    let ghost reported = resolve_error_views(soft_errors@);
    let mut claims: Vec<usize> = Vec::with_capacity(modules.len());
    for i in 0..modules.len()
        invariant
            before == candidate_views(modules@),
            claims@.len() == i,
            forall|j: int| 0 <= j < i ==> claims@[j] == (#[trigger] before[j]).base_address,
    {
        assert(before[i as int] == modules@[i as int]@);
        claims.push(modules[i].base_address);
    }
    assert(claims@ =~= base_addresses(before));
    assert(reported + clamp_reports(before, 0) =~= reported);

    let count: usize = modules.len();
    for i in 0..count
        invariant
            count == modules@.len(),
            before.len() == count,
            claims@ == base_addresses(before),
            forall|j: int|
                0 <= j < i ==> (#[trigger] modules@[j])@ == clamped(before[j], before),
            forall|j: int| i <= j < count ==> (#[trigger] modules@[j])@ == before[j],
            resolve_error_views(soft_errors@) == reported + clamp_reports(before, i as nat),
    {
        let ghost module = before[i as int];
        let ghost reports_so_far = clamp_reports(before, i as nat);
        let ghost errors_so_far = soft_errors@;
        assert(modules@[i as int]@ == module);
        let base_address: usize = modules[i].base_address;
        if let Some(claim) = next_claim(&claims, base_address) {
            if claim < modules[i].end_address {
                // Clamping is typically harmless *unless* the stuff that's cut
                // out is executable code.
                if claim < modules[i].code_end {
                    soft_errors.push(
                        ModuleResolveError::ModuleImageClamped {
                            name: copy_name_or_empty(&modules[i].name),
                            base_address,
                            code_end: modules[i].code_end,
                            clamped_to: claim,
                        },
                    );
                    assert(resolve_error_views(soft_errors@) =~= resolve_error_views(
                        errors_so_far,
                    ).push(soft_errors@.last()@));
                    assert(clamp_report(module, before) =~= seq![soft_errors@.last()@]);
                }
                modules[i].end_address = claim;
                assert(modules@[i as int]@ == clamped(module, before));
            }
        }
        assert(resolve_error_views(soft_errors@) =~= reported + (reports_so_far + clamp_report(
            module,
            before,
        )));
    }
    assert(candidate_views(modules@) =~= clamped_modules(before));
}

/// Whether a user-supplied module's extent contains `address`.
fn user_module_contains(candidates: &Vec<ModuleCandidate>, address: usize) -> (found: bool)
    ensures
        found == any_contains(user_modules(candidate_views(candidates@)), address),
{
    let ghost views = candidate_views(candidates@);
    let ghost users = user_modules(views);
    for i in 0..candidates.len()
        invariant
            views == candidate_views(candidates@),
            users == user_modules(views),
            forall|j: int|
                0 <= j < i && (#[trigger] views[j]).is_user() ==> !views[j].contains_address(
                    address,
                ),
    {
        assert(views[i as int] == candidates@[i as int]@);
        if candidates[i].source.is_user() && candidates[i].contains_address(address) {
            proof {
                broadcast use vstd::seq_lib::group_filter_ensures;
                assert((|module: ModuleCandidateView| module.is_user())(views[i as int]));
                assert(users.contains(views[i as int]));
                let u = choose|u: int| 0 <= u < users.len() && users[u] == views[i as int];
                assert(users[u].contains_address(address));
            }
            return true;
        }
    }
    proof {
        broadcast use vstd::seq_lib::group_filter_ensures;
        assert forall|u: int| 0 <= u < users.len() implies !(#[trigger] users[u]).contains_address(
            address,
        ) by {
            assert((|module: ModuleCandidateView| module.is_user())(users[u]));
            assert(users.contains(users[u]));
            views.lemma_filter_contains_rev(
                |module: ModuleCandidateView| module.is_user(),
                users[u],
            );
            let j = choose|j: int| 0 <= j < views.len() && views[j] == users[u];
            assert(views[j].is_user());
        }
    }
    false
}

/// Whether the candidates can be resolved: none that would be written ends before
/// it starts.
pub fn can_resolve(candidates: &Vec<ModuleCandidate>) -> (can: bool)
    ensures
        forall|entry_point: Option<usize>|
            can == #[trigger] survivors_wf(candidate_views(candidates@), entry_point),
{
    let ghost views = candidate_views(candidates@);
    let ghost users = user_modules(views);
    for i in 0..candidates.len()
        invariant
            views == candidate_views(candidates@),
            users == user_modules(views),
            forall|j: int|
                0 <= j < i ==> (#[trigger] views[j]).wf() || (!views[j].is_user() && any_contains(
                    users,
                    views[j].base_address,
                )),
    {
        assert(views[i as int] == candidates@[i as int]@);
        if candidates[i].base_address > candidates[i].end_address {
            if candidates[i].source.is_user() || !user_module_contains(
                candidates,
                candidates[i].base_address,
            ) {
                proof {
                    assert forall|entry_point: Option<usize>| !#[trigger] survivors_wf(
                        views,
                        entry_point,
                    ) by {
                        law_what_can_be_resolved(views, entry_point);
                        assert(!views[i as int].wf());
                    }
                }
                return false;
            }
        }
    }
    proof {
        assert forall|entry_point: Option<usize>| #[trigger] survivors_wf(
            views,
            entry_point,
        ) by {
            law_what_can_be_resolved(views, entry_point);
        }
    }
    true
}

/// Turns the candidates into the entries written to the `ModuleListStream`.
pub fn resolve(
    candidates: Vec<ModuleCandidate>,
    entry_point: Option<usize>,
    soft_errors: &mut Vec<ModuleResolveError>,
) -> (modules: Vec<ModuleInfo>)
    requires
        survivors_wf(candidate_views(candidates@), entry_point),
    ensures
        module_views(modules@) == resolved_modules(candidate_views(candidates@), entry_point),
        resolve_error_views(final(soft_errors)@) == resolve_error_views(old(soft_errors)@)
            + resolve_reports(candidate_views(candidates@), entry_point),
{
    let ghost all = candidate_views(candidates@);
    let ghost reported = resolve_error_views(soft_errors@);
    let (mut users, detected) = partition_candidates(candidates);
    report_duplicates(&users, soft_errors);
    let mut surviving: Vec<ModuleCandidate> = drop_overridden(detected, &users);
    move_main_module_first(&mut surviving, entry_point);
    let ghost processes = surviving@;
    let ghost user_list = users@;
    surviving.append(&mut users);
    let ghost survivors = surviving_modules(all, entry_point);
    assert(candidate_views(surviving@) =~= survivors) by {
        assert(candidate_views(surviving@) =~= candidate_views(processes) + candidate_views(
            user_list,
        ));
    }
    clamp_overlapping_modules(&mut surviving, soft_errors);
    assert(resolve_error_views(soft_errors@) =~= reported + resolve_reports(all, entry_point));

    let ghost list = surviving@;
    let ghost clamped_list = clamped_modules(survivors);
    assert(candidate_views(list).len() == survivors.len());
    let mut modules: Vec<ModuleInfo> = Vec::with_capacity(surviving.len());
    for candidate in iter: surviving
        invariant
            iter.seq() == list,
            candidate_views(list) == clamped_list,
            list.len() == survivors.len(),
            clamped_list == clamped_modules(survivors),
            forall|i: int| 0 <= i < survivors.len() ==> (#[trigger] survivors[i]).wf(),
            modules@.len() == iter.index(),
            forall|i: int|
                0 <= i < iter.index() ==> (#[trigger] modules@[i])@
                    == clamped_list[i].into_module(),
    {
        proof {
            let i = iter.index() as int;
            assert(candidate == list[i]);
            assert(candidate_views(list)[i] == candidate@);
            assert(clamped_list.len() == survivors.len());
            assert(clamped_list[i] == clamped(survivors[i], survivors));
            lemma_lowest_above(base_addresses(survivors), survivors[i].base_address);
            assert(survivors[i].wf());
        }
        modules.push(candidate.into_module());
    }
    assert(module_views(modules@) =~= resolved_modules(all, entry_point));
    modules
}

/// [`lowest_above`] is the least of the claims above `address`.
pub proof fn lemma_lowest_above(claims: Seq<usize>, address: usize)
    ensures
        match lowest_above(claims, address) {
            Some(claim) => {
                &&& claim > address
                &&& claims.contains(claim)
                &&& forall|i: int|
                    0 <= i < claims.len() && #[trigger] claims[i] > address ==> claim <= claims[i]
            },
            None => forall|i: int| 0 <= i < claims.len() ==> #[trigger] claims[i] <= address,
        },
    decreases claims.len(),
{
    if claims.len() > 0 {
        let rest = claims.drop_last();
        lemma_lowest_above(rest, address);
        assert(forall|i: int| 0 <= i < rest.len() ==> #[trigger] claims[i] == rest[i]);
        assert(claims[claims.len() - 1] == claims.last());
        match lowest_above(rest, address) {
            Some(lowest) => {
                let i = choose|i: int| 0 <= i < rest.len() && rest[i] == lowest;
                assert(claims[i] == lowest);
            },
            None => {},
        }
    }
}

} // verus!
