//! What holds of every resolved module list.

use vstd::prelude::*;

use crate::bytes::name_or_empty;
use crate::error::ModuleResolveErrorView;
use crate::module::{modules_wf, ModuleCandidateView, ModuleInfoView};
use crate::resolve::{
    any_contains, base_addresses, clamp_report, clamp_reports, clamped, clamped_modules,
    detected_modules, duplicate_reports, first_containing, lemma_lowest_above, lowest_above,
    main_module_first, resolve_reports, resolved_modules, starting_outside, starts_among,
    surviving_modules, survivors_wf, user_modules,
};

verus! {

/// Clamping moves a module's end, and only ever down to where another module
/// starts.
pub proof fn law_clamping_only_shortens(
    module: ModuleCandidateView,
    modules: Seq<ModuleCandidateView>,
)
    ensures
        clamped(module, modules) == (ModuleCandidateView {
            end_address: clamped(module, modules).end_address,
            ..module
        }),
        clamped(module, modules).end_address <= module.end_address,
        clamped(module, modules).end_address < module.end_address ==> module.base_address
            < clamped(module, modules).end_address && base_addresses(modules).contains(
            clamped(module, modules).end_address,
        ),
{
    lemma_lowest_above(base_addresses(modules), module.base_address);
}

/// No clamped module reaches over the start of another one.
proof fn lemma_clamped_ends_before(
    module: ModuleCandidateView,
    modules: Seq<ModuleCandidateView>,
    other: int,
)
    requires
        0 <= other < modules.len(),
        module.base_address < modules[other].base_address,
    ensures
        clamped(module, modules).end_address <= modules[other].base_address,
{
    lemma_lowest_above(base_addresses(modules), module.base_address);
    assert(base_addresses(modules)[other] == modules[other].base_address);
}

/// What an entry of the resolved list is made of.
proof fn lemma_resolved_entry(
    candidates: Seq<ModuleCandidateView>,
    entry_point: Option<usize>,
    i: int,
)
    requires
        0 <= i < resolved_modules(candidates, entry_point).len(),
    ensures
        resolved_modules(candidates, entry_point).len() == surviving_modules(
            candidates,
            entry_point,
        ).len(),
        resolved_modules(candidates, entry_point)[i] == clamped(
            surviving_modules(candidates, entry_point)[i],
            surviving_modules(candidates, entry_point),
        ).into_module(),
{
}

/// A module ends no later than where any module above it starts: no entry of
/// the list reaches over another one.
pub proof fn law_no_entry_reaches_over_another(
    candidates: Seq<ModuleCandidateView>,
    entry_point: Option<usize>,
    i: int,
    j: int,
)
    requires
        survivors_wf(candidates, entry_point),
        0 <= i < resolved_modules(candidates, entry_point).len(),
        0 <= j < resolved_modules(candidates, entry_point).len(),
    ensures
        ({
            let modules = resolved_modules(candidates, entry_point);
            modules[i].base_address < modules[j].base_address ==> modules[i].base_address
                + modules[i].size <= modules[j].base_address
        }),
{
    let surviving = surviving_modules(candidates, entry_point);
    lemma_resolved_entry(candidates, entry_point, i);
    lemma_resolved_entry(candidates, entry_point, j);
    if surviving[i].base_address < surviving[j].base_address {
        lemma_clamped_ends_before(surviving[i], surviving, j);
        law_clamping_only_shortens(surviving[i], surviving);
        assert(surviving[i].wf());
    }
}

/// Every entry is reachable by address: what covers an address at which an
/// entry starts starts there itself, and two entries that cover the same address
/// start at the same one.
pub proof fn law_every_module_is_reachable_by_address(
    candidates: Seq<ModuleCandidateView>,
    entry_point: Option<usize>,
    i: int,
    j: int,
    address: int,
)
    requires
        survivors_wf(candidates, entry_point),
        0 <= i < resolved_modules(candidates, entry_point).len(),
        0 <= j < resolved_modules(candidates, entry_point).len(),
    ensures
        ({
            let modules = resolved_modules(candidates, entry_point);
            &&& modules[j].covers(modules[i].base_address as int) ==> modules[j].base_address
                == modules[i].base_address
            &&& modules[i].covers(address) && modules[j].covers(address)
                ==> modules[j].base_address == modules[i].base_address
        }),
{
    law_no_entry_reaches_over_another(candidates, entry_point, i, j);
    law_no_entry_reaches_over_another(candidates, entry_point, j, i);
}

/// A module that spans something still does once the list is resolved, and so
/// covers its own base address.
pub proof fn law_no_module_is_clamped_away(
    candidates: Seq<ModuleCandidateView>,
    entry_point: Option<usize>,
    i: int,
)
    requires
        0 <= i < surviving_modules(candidates, entry_point).len(),
        surviving_modules(candidates, entry_point)[i].base_address < surviving_modules(
            candidates,
            entry_point,
        )[i].end_address,
    ensures
        i < resolved_modules(candidates, entry_point).len(),
        resolved_modules(candidates, entry_point)[i].covers(
            resolved_modules(candidates, entry_point)[i].base_address as int,
        ),
{
    let surviving = surviving_modules(candidates, entry_point);
    lemma_resolved_entry(candidates, entry_point, i);
    law_clamping_only_shortens(surviving[i], surviving);
}

/// Every user-supplied module is written, at the end of the list and in the
/// order given, with all that was said of it but its end, which may move down.
pub proof fn law_user_modules_are_kept(
    candidates: Seq<ModuleCandidateView>,
    entry_point: Option<usize>,
    k: int,
)
    requires
        survivors_wf(candidates, entry_point),
        0 <= k < user_modules(candidates).len(),
    ensures
        ({
            let user = user_modules(candidates)[k];
            let modules = resolved_modules(candidates, entry_point);
            let i = modules.len() - user_modules(candidates).len() + k;
            &&& 0 <= i < modules.len()
            &&& modules[i] == (ModuleInfoView { size: modules[i].size, ..user.into_module() })
            &&& modules[i].base_address + modules[i].size <= user.end_address
        }),
{
    let users = user_modules(candidates);
    let surviving = surviving_modules(candidates, entry_point);
    let i = surviving.len() - users.len() + k;
    lemma_resolved_entry(candidates, entry_point, i);
    assert(surviving[i] == users[k]);
    law_clamping_only_shortens(surviving[i], surviving);
    assert(surviving[i].wf());
}

/// User-supplied modules are taken at face value: no detected module has a say in
/// where one of them ends, only the other user-supplied ones do.
pub proof fn law_user_modules_are_taken_at_face_value(
    candidates: Seq<ModuleCandidateView>,
    entry_point: Option<usize>,
    k: int,
)
    requires
        0 <= k < user_modules(candidates).len(),
    ensures
        clamped(user_modules(candidates)[k], surviving_modules(candidates, entry_point))
            == clamped(user_modules(candidates)[k], user_modules(candidates)),
        ({
            let modules = resolved_modules(candidates, entry_point);
            let i = modules.len() - user_modules(candidates).len() + k;
            modules[i] == clamped(
                user_modules(candidates)[k],
                user_modules(candidates),
            ).into_module()
        }),
{
    let users = user_modules(candidates);
    let user = users[k];
    let kept = starting_outside(detected_modules(candidates), users);
    let main_first = main_module_first(kept, entry_point);
    let surviving = surviving_modules(candidates, entry_point);
    let claims = base_addresses(surviving);
    let user_claims = base_addresses(users);
    lemma_lowest_above(claims, user.base_address);
    lemma_lowest_above(user_claims, user.base_address);
    lemma_main_module_first_same_modules(kept, entry_point);
    lemma_resolved_entry(candidates, entry_point, surviving.len() - users.len() + k);
    assert(surviving[surviving.len() - users.len() + k] == user);
    if let Some(claim) = lowest_above(user_claims, user.base_address) {
        let u = choose|u: int| 0 <= u < user_claims.len() && user_claims[u] == claim;
        assert(claims[main_first.len() + u] == claim);
    }
    if let Some(claim) = lowest_above(claims, user.base_address) {
        let i = choose|i: int| 0 <= i < claims.len() && claims[i] == claim;
        if i < main_first.len() {
            broadcast use vstd::seq_lib::group_filter_ensures;
            assert(main_first[i] == surviving[i]);
            assert(main_first.contains(surviving[i]));
            let j = choose|j: int| 0 <= j < kept.len() && kept[j] == surviving[i];
            assert((|m: ModuleCandidateView| !any_contains(users, m.base_address))(kept[j]));
            assert(!user.contains_address(claim));
        } else {
            assert(user_claims[i - main_first.len()] == claim);
        }
    }
}

/// Swapping the main module to the front neither loses nor invents a module.
proof fn lemma_main_module_first_same_modules(
    modules: Seq<ModuleCandidateView>,
    entry_point: Option<usize>,
)
    ensures
        main_module_first(modules, entry_point).len() == modules.len(),
        main_module_first(modules, entry_point).to_multiset() == modules.to_multiset(),
        forall|module: ModuleCandidateView| #[trigger]
            main_module_first(modules, entry_point).contains(module) <==> modules.contains(module),
{
    if let Some(address) = entry_point {
        lemma_first_containing(modules, address);
        if let Some(index) = first_containing(modules, address) {
            let first = modules[0];
            let main = modules[index];
            let moved = modules.update(0, main);
            let swapped = moved.update(index, first);
            broadcast use vstd::seq_lib::group_to_multiset_ensures;
            vstd::seq_lib::to_multiset_update(modules, 0, main);
            vstd::seq_lib::to_multiset_update(moved, index, first);
            assert(modules.to_multiset().count(first) > 0);
            assert(swapped.to_multiset() =~= modules.to_multiset());
            assert forall|module: ModuleCandidateView| #[trigger]
                swapped.contains(module) <==> modules.contains(module) by {
                if swapped.contains(module) {
                    let k = choose|k: int| 0 <= k < swapped.len() && swapped[k] == module;
                    assert(modules[k] == module || modules[0] == module || modules[index]
                        == module);
                }
                if modules.contains(module) {
                    let k = choose|k: int| 0 <= k < modules.len() && modules[k] == module;
                    if k == 0 {
                        assert(swapped[index] == module);
                    } else if k == index {
                        assert(swapped[0] == module);
                    } else {
                        assert(swapped[k] == module);
                    }
                }
            }
        }
    }
}

/// [`first_containing`] finds the first module that contains `address`.
proof fn lemma_first_containing(modules: Seq<ModuleCandidateView>, address: usize)
    ensures
        match first_containing(modules, address) {
            Some(index) => {
                &&& 0 <= index < modules.len()
                &&& modules[index].contains_address(address)
                &&& forall|i: int|
                    0 <= i < index ==> !(#[trigger] modules[i]).contains_address(address)
            },
            None => !any_contains(modules, address),
        },
    decreases modules.len(),
{
    if modules.len() > 0 {
        let rest = modules.drop_last();
        lemma_first_containing(rest, address);
        assert(forall|i: int| 0 <= i < rest.len() ==> #[trigger] modules[i] == rest[i]);
    }
}

/// If a detected module that is written contains the entry point, then the
/// first entry of the list is the first such module.
pub proof fn law_main_module_comes_first(
    candidates: Seq<ModuleCandidateView>,
    entry_point: usize,
    main: int,
)
    requires
        ({
            let kept = starting_outside(detected_modules(candidates), user_modules(candidates));
            &&& 0 <= main < kept.len()
            &&& kept[main].contains_address(entry_point)
            &&& forall|i: int|
                0 <= i < main ==> !(#[trigger] kept[i]).contains_address(entry_point)
        }),
    ensures
        ({
            let kept = starting_outside(detected_modules(candidates), user_modules(candidates));
            let modules = resolved_modules(candidates, Some(entry_point));
            &&& modules.len() > 0
            &&& modules[0] == (ModuleInfoView {
                size: modules[0].size,
                ..kept[main].into_module()
            })
        }),
{
    let kept = starting_outside(detected_modules(candidates), user_modules(candidates));
    let surviving = surviving_modules(candidates, Some(entry_point));
    lemma_first_containing(kept, entry_point);
    assert(first_containing(kept, entry_point) == Some(main)) by {
        assert(kept[main].contains_address(entry_point));
        let index = first_containing(kept, entry_point)->0;
        assert(kept[index].contains_address(entry_point));
    }
    assert(surviving[0] == kept[main]);
    lemma_resolved_entry(candidates, Some(entry_point), 0);
    law_clamping_only_shortens(surviving[0], surviving);
}

/// A detected module is written exactly if it starts outside the extent of
/// every user-supplied one.
pub proof fn law_user_modules_override_detected_ones(
    candidates: Seq<ModuleCandidateView>,
    entry_point: Option<usize>,
    module: ModuleCandidateView,
)
    requires
        candidates.contains(module),
        !module.is_user(),
    ensures
        surviving_modules(candidates, entry_point).contains(module) <==> !any_contains(
            user_modules(candidates),
            module.base_address,
        ),
{
    let users = user_modules(candidates);
    let detected = detected_modules(candidates);
    let kept = starting_outside(detected, users);
    let main_first = main_module_first(kept, entry_point);
    let surviving = surviving_modules(candidates, entry_point);
    lemma_main_module_first_same_modules(kept, entry_point);
    broadcast use vstd::seq_lib::group_filter_ensures;
    let at = choose|i: int| 0 <= i < candidates.len() && candidates[i] == module;
    assert(detected.contains(module)) by {
        assert((|m: ModuleCandidateView| !m.is_user())(candidates[at]));
    }
    if !any_contains(users, module.base_address) {
        let d = choose|i: int| 0 <= i < detected.len() && detected[i] == module;
        assert((|m: ModuleCandidateView| !any_contains(users, m.base_address))(detected[d]));
        assert(kept.contains(module));
        assert(main_first.contains(module));
        let k = choose|k: int| 0 <= k < main_first.len() && main_first[k] == module;
        assert(surviving[k] == module);
    }
    if surviving.contains(module) {
        let k = choose|k: int| 0 <= k < surviving.len() && surviving[k] == module;
        if k < main_first.len() {
            assert(main_first[k] == module);
            assert(main_first.contains(module));
            let j = choose|j: int| 0 <= j < kept.len() && kept[j] == module;
            assert((|m: ModuleCandidateView| !any_contains(users, m.base_address))(kept[j]));
        } else {
            assert(users[k - main_first.len()] == module);
            assert((|m: ModuleCandidateView| m.is_user())(users[k - main_first.len()]));
        }
    }
}

/// Nothing is lost or invented: the entries are the user-supplied modules and
/// the detected ones that start outside of them, each as often as it was given.
pub proof fn law_no_module_is_lost_or_invented(
    candidates: Seq<ModuleCandidateView>,
    entry_point: Option<usize>,
)
    ensures
        surviving_modules(candidates, entry_point).to_multiset() == (starting_outside(
            detected_modules(candidates),
            user_modules(candidates),
        ) + user_modules(candidates)).to_multiset(),
        resolved_modules(candidates, entry_point).len() == starting_outside(
            detected_modules(candidates),
            user_modules(candidates),
        ).len() + user_modules(candidates).len(),
{
    let users = user_modules(candidates);
    let kept = starting_outside(detected_modules(candidates), users);
    lemma_main_module_first_same_modules(kept, entry_point);
    vstd::seq_lib::lemma_multiset_commutative(kept, users);
    vstd::seq_lib::lemma_multiset_commutative(main_module_first(kept, entry_point), users);
}

/// Clamping a second time changes nothing and reports nothing.
pub proof fn law_clamping_is_idempotent(modules: Seq<ModuleCandidateView>)
    ensures
        clamped_modules(clamped_modules(modules)) == clamped_modules(modules),
        clamp_reports(clamped_modules(modules), modules.len()) == Seq::<
            ModuleResolveErrorView,
        >::empty(),
{
    let once = clamped_modules(modules);
    assert forall|i: int| 0 <= i < modules.len() implies base_addresses(once)[i]
        == base_addresses(modules)[i] by {
        law_clamping_only_shortens(modules[i], modules);
    }
    assert(base_addresses(once) =~= base_addresses(modules));
    assert forall|i: int| 0 <= i < once.len() implies clamped(#[trigger] once[i], once)
        == once[i] by {
        law_clamping_only_shortens(modules[i], modules);
        lemma_lowest_above(base_addresses(modules), modules[i].base_address);
    }
    assert(clamped_modules(once) =~= once);
    lemma_no_clamp_reports(once, once.len());
}

/// Modules that clamping leaves alone give no report.
proof fn lemma_no_clamp_reports(modules: Seq<ModuleCandidateView>, count: nat)
    requires
        count <= modules.len(),
        forall|i: int|
            0 <= i < modules.len() ==> clamped(#[trigger] modules[i], modules) == modules[i],
    ensures
        clamp_reports(modules, count) == Seq::<ModuleResolveErrorView>::empty(),
    decreases count,
{
    if count > 0 {
        lemma_no_clamp_reports(modules, (count - 1) as nat);
        assert(clamped(modules[count - 1], modules) == modules[count - 1]);
        assert(clamp_reports(modules, count) =~= Seq::empty());
    }
}

/// The reports on a module are among those on all modules.
proof fn lemma_clamp_report_among(modules: Seq<ModuleCandidateView>, count: nat, i: int)
    requires
        0 <= i < count <= modules.len(),
    ensures
        forall|report: ModuleResolveErrorView| #[trigger]
            clamp_report(modules[i], modules).contains(report) ==> clamp_reports(
                modules,
                count,
            ).contains(report),
    decreases count,
{
    let rest = clamp_reports(modules, (count - 1) as nat);
    let last = clamp_report(modules[count - 1], modules);
    if i < count - 1 {
        lemma_clamp_report_among(modules, (count - 1) as nat, i);
    }
    assert forall|report: ModuleResolveErrorView| #[trigger]
        clamp_report(modules[i], modules).contains(report) implies clamp_reports(
        modules,
        count,
    ).contains(report) by {
        if i < count - 1 {
            let k = choose|k: int| 0 <= k < rest.len() && rest[k] == report;
            assert((rest + last)[k] == report);
        } else {
            let k = choose|k: int| 0 <= k < last.len() && last[k] == report;
            assert((rest + last)[rest.len() + k] == report);
        }
    }
}

/// Whenever executable code is cut off a module, that is reported.
pub proof fn law_lost_code_is_reported(
    candidates: Seq<ModuleCandidateView>,
    entry_point: Option<usize>,
    i: int,
)
    requires
        0 <= i < surviving_modules(candidates, entry_point).len(),
        ({
            let surviving = surviving_modules(candidates, entry_point);
            let now = clamped(surviving[i], surviving);
            now.end_address < surviving[i].end_address && now.end_address < surviving[i].code_end
        }),
    ensures
        ({
            let surviving = surviving_modules(candidates, entry_point);
            resolve_reports(candidates, entry_point).contains(
                ModuleResolveErrorView::ModuleImageClamped {
                    name: name_or_empty(surviving[i].name),
                    base_address: surviving[i].base_address,
                    code_end: surviving[i].code_end,
                    clamped_to: clamped(surviving[i], surviving).end_address,
                },
            )
        }),
{
    let users = user_modules(candidates);
    let surviving = surviving_modules(candidates, entry_point);
    let duplicates = duplicate_reports(users, users.len());
    let clamps = clamp_reports(surviving, surviving.len());
    let report = clamp_report(surviving[i], surviving)[0];
    lemma_clamp_report_among(surviving, surviving.len(), i);
    assert(clamp_report(surviving[i], surviving).contains(report));
    let k = choose|k: int| 0 <= k < clamps.len() && clamps[k] == report;
    assert((duplicates + clamps)[duplicates.len() + k] == report);
}

/// A report on a user-supplied module that starts where an earlier one does is
/// among the reports on all of them.
proof fn lemma_duplicate_among(users: Seq<ModuleCandidateView>, count: nat, i: int)
    requires
        0 <= i < count <= users.len(),
        starts_among(users, i, users[i].base_address),
    ensures
        duplicate_reports(users, count).contains(
            ModuleResolveErrorView::DuplicateUserModule {
                name: name_or_empty(users[i].name),
                base_address: users[i].base_address,
            },
        ),
    decreases count,
{
    let report = ModuleResolveErrorView::DuplicateUserModule {
        name: name_or_empty(users[i].name),
        base_address: users[i].base_address,
    };
    let rest = duplicate_reports(users, (count - 1) as nat);
    let all = duplicate_reports(users, count);
    if i < count - 1 {
        lemma_duplicate_among(users, (count - 1) as nat, i);
        let k = choose|k: int| 0 <= k < rest.len() && rest[k] == report;
        assert(all[k] == report);
    } else {
        assert(all[rest.len() as int] == report);
    }
}

/// Whenever two user-supplied modules start at the same place, the later one is
/// reported.
pub proof fn law_duplicates_are_reported(
    candidates: Seq<ModuleCandidateView>,
    entry_point: Option<usize>,
    i: int,
    j: int,
)
    requires
        0 <= i < j < user_modules(candidates).len(),
        user_modules(candidates)[i].base_address == user_modules(candidates)[j].base_address,
    ensures
        resolve_reports(candidates, entry_point).contains(
            ModuleResolveErrorView::DuplicateUserModule {
                name: name_or_empty(user_modules(candidates)[j].name),
                base_address: user_modules(candidates)[j].base_address,
            },
        ),
{
    let users = user_modules(candidates);
    let surviving = surviving_modules(candidates, entry_point);
    let duplicates = duplicate_reports(users, users.len());
    let clamps = clamp_reports(surviving, surviving.len());
    let report = ModuleResolveErrorView::DuplicateUserModule {
        name: name_or_empty(users[j].name),
        base_address: users[j].base_address,
    };
    assert(users[i].base_address == users[j].base_address);
    lemma_duplicate_among(users, users.len(), j);
    let k = choose|k: int| 0 <= k < duplicates.len() && duplicates[k] == report;
    assert((duplicates + clamps)[k] == report);
}

/// Modules that are distinct and do not overlap are written as they are, with
/// nothing to report.
pub proof fn law_disjoint_modules_are_left_alone(
    candidates: Seq<ModuleCandidateView>,
    entry_point: Option<usize>,
)
    requires
        ({
            let surviving = surviving_modules(candidates, entry_point);
            &&& forall|i: int, j: int|
                0 <= i < surviving.len() && 0 <= j < surviving.len() && (
                #[trigger] surviving[i]).base_address < (#[trigger] surviving[j]).base_address
                    ==> surviving[i].end_address <= surviving[j].base_address
            &&& forall|i: int, j: int|
                0 <= i < j < user_modules(candidates).len() ==> (#[trigger] user_modules(
                    candidates,
                )[i]).base_address != (#[trigger] user_modules(candidates)[j]).base_address
        }),
    ensures
        resolved_modules(candidates, entry_point) == surviving_modules(
            candidates,
            entry_point,
        ).map_values(|module: ModuleCandidateView| module.into_module()),
        resolve_reports(candidates, entry_point) == Seq::<ModuleResolveErrorView>::empty(),
{
    let users = user_modules(candidates);
    let surviving = surviving_modules(candidates, entry_point);
    assert forall|i: int| 0 <= i < surviving.len() implies clamped(
        #[trigger] surviving[i],
        surviving,
    ) == surviving[i] by {
        let bases = base_addresses(surviving);
        lemma_lowest_above(bases, surviving[i].base_address);
        if let Some(claim) = lowest_above(bases, surviving[i].base_address) {
            let j = choose|j: int| 0 <= j < bases.len() && bases[j] == claim;
            assert(surviving[j].base_address == claim);
        }
    }
    assert(clamped_modules(surviving) =~= surviving);
    lemma_no_clamp_reports(surviving, surviving.len());
    lemma_no_duplicate_reports(users, users.len());
    assert(resolve_reports(candidates, entry_point) =~= Seq::empty());
}

/// Modules that start at different places give no report.
proof fn lemma_no_duplicate_reports(users: Seq<ModuleCandidateView>, count: nat)
    requires
        count <= users.len(),
        forall|i: int, j: int|
            0 <= i < j < users.len() ==> (#[trigger] users[i]).base_address != (
            #[trigger] users[j]).base_address,
    ensures
        duplicate_reports(users, count) == Seq::<ModuleResolveErrorView>::empty(),
    decreases count,
{
    if count > 0 {
        lemma_no_duplicate_reports(users, (count - 1) as nat);
    }
}

/// Where a report on clamped modules comes from.
proof fn lemma_clamp_report_origin(
    modules: Seq<ModuleCandidateView>,
    count: nat,
    report: ModuleResolveErrorView,
) -> (i: int)
    requires
        count <= modules.len(),
        clamp_reports(modules, count).contains(report),
    ensures
        0 <= i < count,
        clamp_report(modules[i], modules) == seq![report],
    decreases count,
{
    if count == 0 {
        assert(false);
        0
    } else {
        let rest = clamp_reports(modules, (count - 1) as nat);
        let last = clamp_report(modules[count - 1], modules);
        let k = choose|k: int| 0 <= k < (rest + last).len() && (rest + last)[k] == report;
        if k < rest.len() {
            assert(rest[k] == report);
            lemma_clamp_report_origin(modules, (count - 1) as nat, report)
        } else {
            assert(last[k - rest.len()] == report);
            assert(last =~= seq![report]);
            count - 1
        }
    }
}

/// Where a report on duplicate modules comes from.
proof fn lemma_duplicate_report_origin(
    users: Seq<ModuleCandidateView>,
    count: nat,
    report: ModuleResolveErrorView,
) -> (j: int)
    requires
        count <= users.len(),
        duplicate_reports(users, count).contains(report),
    ensures
        0 <= j < count,
        starts_among(users, j, users[j].base_address),
        report == (ModuleResolveErrorView::DuplicateUserModule {
            name: name_or_empty(users[j].name),
            base_address: users[j].base_address,
        }),
    decreases count,
{
    if count == 0 {
        assert(false);
        0
    } else {
        let rest = duplicate_reports(users, (count - 1) as nat);
        let all = duplicate_reports(users, count);
        let k = choose|k: int| 0 <= k < all.len() && all[k] == report;
        if k < rest.len() {
            assert(rest[k] == report);
            lemma_duplicate_report_origin(users, (count - 1) as nat, report)
        } else {
            count - 1
        }
    }
}

/// Nothing is reported without cause: every report is on a user-supplied module
/// that starts where an earlier one does, or on a module that lost executable
/// code.
pub proof fn law_every_report_has_a_cause(
    candidates: Seq<ModuleCandidateView>,
    entry_point: Option<usize>,
    report: ModuleResolveErrorView,
)
    requires
        resolve_reports(candidates, entry_point).contains(report),
    ensures
        match report {
            ModuleResolveErrorView::DuplicateUserModule { name, base_address } => exists|
                i: int,
                j: int,
            |
                0 <= i < j < user_modules(candidates).len() && (#[trigger] user_modules(
                    candidates,
                )[i]).base_address == base_address && (#[trigger] user_modules(
                    candidates,
                )[j]).base_address == base_address && name_or_empty(
                    user_modules(candidates)[j].name,
                ) == name,
            ModuleResolveErrorView::ModuleImageClamped {
                name,
                base_address,
                code_end,
                clamped_to,
            } => exists|i: int|
                #![trigger surviving_modules(candidates, entry_point)[i]]
                {
                    let surviving = surviving_modules(candidates, entry_point);
                    &&& 0 <= i < surviving.len()
                    &&& surviving[i].base_address == base_address
                    &&& name_or_empty(surviving[i].name) == name
                    &&& surviving[i].code_end == code_end
                    &&& clamped(surviving[i], surviving).end_address == clamped_to
                    &&& clamped_to < code_end
                },
        },
{
    let users = user_modules(candidates);
    let surviving = surviving_modules(candidates, entry_point);
    let duplicates = duplicate_reports(users, users.len());
    let clamps = clamp_reports(surviving, surviving.len());
    let all = duplicates + clamps;
    let k = choose|k: int| 0 <= k < all.len() && all[k] == report;
    if k < duplicates.len() {
        assert(duplicates[k] == report);
        let j = lemma_duplicate_report_origin(users, users.len(), report);
        let i = choose|i: int|
            0 <= i < j && (#[trigger] users[i]).base_address == users[j].base_address;
        assert(users[i].base_address == users[j].base_address);
    } else {
        assert(clamps[k - duplicates.len()] == report);
        let i = lemma_clamp_report_origin(surviving, surviving.len(), report);
        assert(clamp_report(surviving[i], surviving)[0] == report);
        assert(surviving_modules(candidates, entry_point)[i] == surviving[i]);
    }
}

/// The modules that survive are those the user supplied and those that start
/// outside of them.
proof fn lemma_survivors(
    candidates: Seq<ModuleCandidateView>,
    entry_point: Option<usize>,
    module: ModuleCandidateView,
)
    ensures
        surviving_modules(candidates, entry_point).contains(module) <==> candidates.contains(module)
            && (module.is_user() || !any_contains(user_modules(candidates), module.base_address)),
{
    let users = user_modules(candidates);
    let detected = detected_modules(candidates);
    let kept = starting_outside(detected, users);
    let main_first = main_module_first(kept, entry_point);
    let surviving = surviving_modules(candidates, entry_point);
    lemma_main_module_first_same_modules(kept, entry_point);
    broadcast use vstd::seq_lib::group_filter_ensures;
    if surviving.contains(module) {
        let k = choose|k: int| 0 <= k < surviving.len() && surviving[k] == module;
        if k < main_first.len() {
            assert(main_first[k] == module);
            assert(main_first.contains(module));
            assert(kept.contains(module));
            detected.lemma_filter_contains_rev(
                |m: ModuleCandidateView| !any_contains(users, m.base_address),
                module,
            );
            candidates.lemma_filter_contains_rev(
                |m: ModuleCandidateView| !m.is_user(),
                module,
            );
        } else {
            assert(users[k - main_first.len()] == module);
            assert(users.contains(module));
            candidates.lemma_filter_contains_rev(|m: ModuleCandidateView| m.is_user(), module);
        }
    }
    if candidates.contains(module) {
        if module.is_user() {
            let at = choose|i: int| 0 <= i < candidates.len() && candidates[i] == module;
            assert((|m: ModuleCandidateView| m.is_user())(candidates[at]));
            assert(users.contains(module));
            let u = choose|u: int| 0 <= u < users.len() && users[u] == module;
            assert(surviving[main_first.len() + u] == module);
        }
    }
    if candidates.contains(module) && !module.is_user() || surviving.contains(module)
        && !module.is_user() {
        law_user_modules_override_detected_ones(candidates, entry_point, module);
    }
}

/// Whether a list can be resolved does not depend on the entry point: all
/// modules that survive end where they start or later exactly if each candidate
/// does, or is one that a user-supplied module overrides.
pub proof fn law_what_can_be_resolved(
    candidates: Seq<ModuleCandidateView>,
    entry_point: Option<usize>,
)
    ensures
        survivors_wf(candidates, entry_point) <==> forall|i: int|
            0 <= i < candidates.len() ==> (#[trigger] candidates[i]).wf() || (
            !candidates[i].is_user() && any_contains(
                user_modules(candidates),
                candidates[i].base_address,
            )),
{
    let surviving = surviving_modules(candidates, entry_point);
    if survivors_wf(candidates, entry_point) {
        assert forall|i: int| 0 <= i < candidates.len() implies (#[trigger] candidates[i]).wf() || (
        !candidates[i].is_user() && any_contains(
            user_modules(candidates),
            candidates[i].base_address,
        )) by {
            lemma_survivors(candidates, entry_point, candidates[i]);
            assert(candidates.contains(candidates[i]));
            if surviving.contains(candidates[i]) {
                let k = choose|k: int|
                    0 <= k < surviving.len() && surviving[k] == candidates[i];
                assert(surviving[k].wf());
            }
        }
    }
    if forall|i: int|
        0 <= i < candidates.len() ==> (#[trigger] candidates[i]).wf() || (!candidates[i].is_user()
            && any_contains(user_modules(candidates), candidates[i].base_address)) {
        assert forall|k: int| 0 <= k < surviving.len() implies (#[trigger] surviving[k]).wf() by {
            assert(surviving.contains(surviving[k]));
            lemma_survivors(candidates, entry_point, surviving[k]);
            let i = choose|i: int|
                0 <= i < candidates.len() && candidates[i] == surviving[k];
            assert(candidates[i] == surviving[k]);
        }
    }
}

/// Candidates of which none ends before it starts, as those of a walked list and
/// those that the user supplied, can always be resolved.
pub proof fn law_sound_candidates_can_be_resolved(
    candidates: Seq<ModuleCandidateView>,
    entry_point: Option<usize>,
)
    requires
        modules_wf(candidates),
    ensures
        survivors_wf(candidates, entry_point),
{
    law_what_can_be_resolved(candidates, entry_point);
}

} // verus!
