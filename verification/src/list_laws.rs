//! The resolved list, entry by entry and report by report.

use vstd::prelude::*;

use crate::bytes::name_or_empty;
use crate::error::ModuleResolveErrorView;
use crate::module::ModuleCandidateView;
use crate::resolve::{
    any_contains, base_addresses, clamp_report, clamp_reports, clamped, clamped_modules,
    detected_modules, duplicate_reports, first_containing, lemma_lowest_above, lowest_above,
    main_module_first, resolve_reports, resolved_modules, starting_outside, starts_among,
    surviving_modules, survivors_wf, user_modules,
};

verus! {

/// One more candidate goes to the user's modules or to the detected ones, by its
/// source alone, and behind those that are there.
pub proof fn law_every_candidate_is_the_users_or_detected(
    candidates: Seq<ModuleCandidateView>,
    last: ModuleCandidateView,
)
    ensures
        user_modules(Seq::empty()).len() == 0,
        detected_modules(Seq::empty()).len() == 0,
        last.source is User ==> user_modules(candidates.push(last)) == user_modules(
            candidates,
        ).push(last) && detected_modules(candidates.push(last)) == detected_modules(candidates),
        last.source is Process ==> detected_modules(candidates.push(last)) == detected_modules(
            candidates,
        ).push(last) && user_modules(candidates.push(last)) == user_modules(candidates),
{
    reveal(Seq::filter);
    assert(candidates.push(last).drop_last() =~= candidates);
    assert(candidates.push(last).last() == last);
}

/// One more detected module is kept exactly if no user's module spans where it
/// starts, behind those that are kept already.
pub proof fn law_a_module_is_kept_unless_a_user_module_spans_its_start(
    modules: Seq<ModuleCandidateView>,
    users: Seq<ModuleCandidateView>,
    last: ModuleCandidateView,
)
    ensures
        starting_outside(Seq::empty(), users).len() == 0,
        (exists|u: int|
            0 <= u < users.len() && (#[trigger] users[u]).base_address <= last.base_address
                && last.base_address < users[u].end_address) ==> starting_outside(
            modules.push(last),
            users,
        ) == starting_outside(modules, users),
        !(exists|u: int|
            0 <= u < users.len() && (#[trigger] users[u]).base_address <= last.base_address
                && last.base_address < users[u].end_address) ==> starting_outside(
            modules.push(last),
            users,
        ) == starting_outside(modules, users).push(last),
        any_contains(users, last.base_address) <==> exists|u: int|
            0 <= u < users.len() && (#[trigger] users[u]).base_address <= last.base_address
                && last.base_address < users[u].end_address,
{
    reveal(Seq::filter);
    assert(modules.push(last).drop_last() =~= modules);
    assert(modules.push(last).last() == last);
    if exists|u: int|
        0 <= u < users.len() && (#[trigger] users[u]).base_address <= last.base_address
            && last.base_address < users[u].end_address {
        let u = choose|u: int|
            0 <= u < users.len() && (#[trigger] users[u]).base_address <= last.base_address
                && last.base_address < users[u].end_address;
        assert(users[u].contains_address(last.base_address));
    }
}

/// The first module that spans the entry point changes places with the first of
/// all, and every other one stays where it is.
pub proof fn law_the_main_module_changes_places_with_the_first(
    modules: Seq<ModuleCandidateView>,
    entry_point: usize,
    main: int,
)
    requires
        0 <= main < modules.len(),
        modules[main].base_address <= entry_point < modules[main].end_address,
        forall|i: int|
            0 <= i < main ==> !((#[trigger] modules[i]).base_address <= entry_point && entry_point
                < modules[i].end_address),
    ensures
        ({
            let moved = main_module_first(modules, Some(entry_point));
            &&& moved.len() == modules.len()
            &&& moved[0] == modules[main]
            &&& moved[main] == modules[0]
            &&& forall|i: int|
                0 < i < modules.len() && i != main ==> #[trigger] moved[i] == modules[i]
        }),
{
    lemma_first(modules, entry_point, main);
}

/// Which module is the first one that spans an address.
proof fn lemma_first(modules: Seq<ModuleCandidateView>, address: usize, main: int)
    requires
        0 <= main < modules.len(),
        modules[main].base_address <= address < modules[main].end_address,
        forall|i: int|
            0 <= i < main ==> !((#[trigger] modules[i]).base_address <= address && address
                < modules[i].end_address),
    ensures
        first_containing(modules, address) == Some(main),
    decreases modules.len(),
{
    let rest = modules.drop_last();
    if main < rest.len() {
        assert forall|i: int| 0 <= i < main implies !((#[trigger] rest[i]).base_address <= address
            && address < rest[i].end_address) by {
            assert(rest[i] == modules[i]);
        }
        lemma_first(rest, address, main);
    } else {
        assert forall|i: int| 0 <= i < rest.len() implies !((#[trigger] rest[i]).base_address
            <= address && address < rest[i].end_address) by {
            assert(rest[i] == modules[i]);
        }
        lemma_none(rest, address);
    }
}

/// Where no module spans an address, none is the first.
proof fn lemma_none(modules: Seq<ModuleCandidateView>, address: usize)
    requires
        forall|i: int|
            0 <= i < modules.len() ==> !((#[trigger] modules[i]).base_address <= address && address
                < modules[i].end_address),
    ensures
        first_containing(modules, address) is None,
    decreases modules.len(),
{
    if modules.len() > 0 {
        let rest = modules.drop_last();
        assert forall|i: int| 0 <= i < rest.len() implies !((#[trigger] rest[i]).base_address
            <= address && address < rest[i].end_address) by {
            assert(rest[i] == modules[i]);
        }
        lemma_none(rest, address);
        assert(modules[modules.len() - 1] == modules.last());
    }
}

/// Without an entry point, or a module that spans it, every module stays where it
/// is.
pub proof fn law_without_a_main_module_nothing_moves(
    modules: Seq<ModuleCandidateView>,
    entry_point: usize,
)
    ensures
        main_module_first(modules, None) == modules,
        (forall|i: int|
            0 <= i < modules.len() ==> !((#[trigger] modules[i]).base_address <= entry_point
                && entry_point < modules[i].end_address)) ==> main_module_first(
            modules,
            Some(entry_point),
        ) == modules,
{
    if forall|i: int|
        0 <= i < modules.len() ==> !((#[trigger] modules[i]).base_address <= entry_point
            && entry_point < modules[i].end_address) {
        lemma_none(modules, entry_point);
    }
}

/// The list holds the detected modules that are kept, the main one first, and then
/// all of the user's.
pub proof fn law_the_list_is_detected_modules_and_then_the_users(
    candidates: Seq<ModuleCandidateView>,
    entry_point: Option<usize>,
)
    ensures
        ({
            let users = user_modules(candidates);
            let kept = main_module_first(
                starting_outside(detected_modules(candidates), users),
                entry_point,
            );
            let surviving = surviving_modules(candidates, entry_point);
            &&& surviving.len() == kept.len() + users.len()
            &&& forall|i: int| 0 <= i < kept.len() ==> #[trigger] surviving[i] == kept[i]
            &&& forall|k: int|
                0 <= k < users.len() ==> #[trigger] users[k] == surviving[kept.len() + k]
        }),
{
}

/// A module ends where it did or where the next module of the list starts,
/// whichever comes first, and keeps all else.
pub proof fn law_a_module_ends_at_its_end_or_the_next_start(
    modules: Seq<ModuleCandidateView>,
    i: int,
)
    requires
        0 <= i < modules.len(),
    ensures
        clamped_modules(modules).len() == modules.len(),
        ({
            let now = clamped_modules(modules)[i];
            &&& now == clamped(modules[i], modules)
            &&& now.base_address == modules[i].base_address
            &&& now.code_end == modules[i].code_end
            &&& now.name == modules[i].name
            &&& now.file_offset == modules[i].file_offset
            &&& now.source == modules[i].source
            &&& now.end_address <= modules[i].end_address
            &&& forall|j: int|
                0 <= j < modules.len() && (#[trigger] modules[j]).base_address
                    > modules[i].base_address ==> now.end_address <= modules[j].base_address
            &&& now.end_address == modules[i].end_address || exists|j: int|
                0 <= j < modules.len() && (#[trigger] modules[j]).base_address
                    > modules[i].base_address && now.end_address == modules[j].base_address
        }),
{
    let bases = base_addresses(modules);
    lemma_lowest_above(bases, modules[i].base_address);
    assert forall|j: int|
        0 <= j < modules.len() && (#[trigger] modules[j]).base_address
            > modules[i].base_address implies clamped(modules[i], modules).end_address
        <= modules[j].base_address by {
        assert(bases[j] == modules[j].base_address);
    }
    if let Some(claim) = lowest_above(bases, modules[i].base_address) {
        let j = choose|j: int| 0 <= j < bases.len() && bases[j] == claim;
        assert(modules[j].base_address == claim);
    }
}

/// Every entry of the list ends exactly where its module does, or at the next base
/// address of the list if that comes first: it reaches as far as it can, and no
/// further. All else is the module's.
pub proof fn law_every_entry_reaches_as_far_as_it_can(
    candidates: Seq<ModuleCandidateView>,
    entry_point: Option<usize>,
    i: int,
)
    requires
        survivors_wf(candidates, entry_point),
        0 <= i < surviving_modules(candidates, entry_point).len(),
    ensures
        resolved_modules(candidates, entry_point).len() == surviving_modules(
            candidates,
            entry_point,
        ).len(),
        ({
            let surviving = surviving_modules(candidates, entry_point);
            let entry = resolved_modules(candidates, entry_point)[i];
            let module = surviving[i];
            let end = entry.base_address + entry.size;
            &&& entry.base_address == module.base_address
            &&& entry.name == module.name
            &&& entry.file_offset == module.file_offset
            &&& entry.source == module.source
            &&& entry.executable <==> module.base_address < module.code_end
            &&& end <= module.end_address
            &&& forall|j: int|
                0 <= j < surviving.len() && (#[trigger] surviving[j]).base_address
                    > module.base_address ==> end <= surviving[j].base_address
            &&& end == module.end_address || exists|j: int|
                0 <= j < surviving.len() && (#[trigger] surviving[j]).base_address
                    > module.base_address && end == surviving[j].base_address
        }),
{
    let surviving = surviving_modules(candidates, entry_point);
    law_a_module_ends_at_its_end_or_the_next_start(surviving, i);
    let now = clamped_modules(surviving)[i];
    assert(surviving[i].wf());
    if now.end_address != surviving[i].end_address {
        let j = choose|j: int|
            0 <= j < surviving.len() && (#[trigger] surviving[j]).base_address
                > surviving[i].base_address && now.end_address == surviving[j].base_address;
        assert(now.base_address <= now.end_address);
    }
    crate::module_laws::law_an_entry_is_the_whole_module(now);
    assert(resolved_modules(candidates, entry_point)[i] == now.into_module());
}

/// A module that is alone, or below no other, is written in its full size.
pub proof fn law_a_module_with_nothing_above_keeps_its_size(
    candidates: Seq<ModuleCandidateView>,
    entry_point: Option<usize>,
    i: int,
)
    requires
        survivors_wf(candidates, entry_point),
        0 <= i < surviving_modules(candidates, entry_point).len(),
        forall|j: int|
            0 <= j < surviving_modules(candidates, entry_point).len() ==> !(
            surviving_modules(candidates, entry_point)[i].base_address < (
            #[trigger] surviving_modules(candidates, entry_point)[j]).base_address
                < surviving_modules(candidates, entry_point)[i].end_address),
    ensures
        resolved_modules(candidates, entry_point)[i].size == surviving_modules(
            candidates,
            entry_point,
        )[i].end_address - surviving_modules(candidates, entry_point)[i].base_address,
{
    let surviving = surviving_modules(candidates, entry_point);
    law_every_entry_reaches_as_far_as_it_can(candidates, entry_point, i);
    let entry = resolved_modules(candidates, entry_point)[i];
    let end = entry.base_address + entry.size;
    assert(surviving[i].wf());
    if end != surviving[i].end_address {
        let j = choose|j: int|
            0 <= j < surviving.len() && (#[trigger] surviving[j]).base_address
                > surviving[i].base_address && end == surviving[j].base_address;
        assert(!(surviving[i].base_address < surviving[j].base_address
            < surviving[i].end_address));
    }
}

/// The numbers from zero up to `count`.
pub open spec fn places(count: nat) -> Seq<int> {
    Seq::new(count, |i: int| i)
}

/// Whether a module's code reaches over the start of another one, and so does the
/// module.
pub open spec fn loses_code(modules: Seq<ModuleCandidateView>, i: int) -> bool {
    exists|j: int|
        0 <= j < modules.len() && modules[i].base_address < (#[trigger] modules[j]).base_address
            && modules[j].base_address < modules[i].end_address && modules[j].base_address
            < modules[i].code_end
}

/// Whether a module starts where an earlier one does.
pub open spec fn starts_like_an_earlier_one(modules: Seq<ModuleCandidateView>, i: int) -> bool {
    exists|j: int| 0 <= j < i && (#[trigger] modules[j]).base_address == modules[i].base_address
}

/// The reports on the first `count` modules that lose code, and no others, in their
/// order.
proof fn lemma_clamp_reports(modules: Seq<ModuleCandidateView>, count: nat)
    requires
        count <= modules.len(),
    ensures
        clamp_reports(modules, count) == places(count).filter(
            |i: int| loses_code(modules, i),
        ).map_values(
            |i: int|
                ModuleResolveErrorView::ModuleImageClamped {
                    name: name_or_empty(modules[i].name),
                    base_address: modules[i].base_address,
                    code_end: modules[i].code_end,
                    clamped_to: clamped_modules(modules)[i].end_address,
                },
        ),
    decreases count,
{
    let loses = |i: int| loses_code(modules, i);
    let report = |i: int|
        ModuleResolveErrorView::ModuleImageClamped {
            name: name_or_empty(modules[i].name),
            base_address: modules[i].base_address,
            code_end: modules[i].code_end,
            clamped_to: clamped_modules(modules)[i].end_address,
        };
    reveal(Seq::filter);
    if count == 0 {
        assert(places(0) =~= Seq::empty());
        assert(places(0).filter(loses).map_values(report) =~= Seq::empty());
    } else {
        let last = count - 1;
        lemma_clamp_reports(modules, last as nat);
        assert(places(count).drop_last() =~= places(last as nat));
        assert(places(count).last() == last);
        law_a_module_ends_at_its_end_or_the_next_start(modules, last);
        let now = clamped_modules(modules)[last];
        let before = places(last as nat).filter(loses);
        if loses_code(modules, last) {
            let j = choose|j: int|
                0 <= j < modules.len() && modules[last].base_address < (
                #[trigger] modules[j]).base_address && modules[j].base_address
                    < modules[last].end_address && modules[j].base_address
                    < modules[last].code_end;
            assert(now.end_address <= modules[j].base_address);
            assert(clamp_report(modules[last], modules) =~= seq![report(last)]);
            assert(places(count).filter(loses) == before.push(last));
            assert(before.push(last).map_values(report) =~= before.map_values(report).push(
                report(last),
            ));
            assert(before.map_values(report) + seq![report(last)] =~= before.map_values(
                report,
            ).push(report(last)));
        } else {
            if now.end_address < modules[last].end_address && now.end_address
                < modules[last].code_end {
                let j = choose|j: int|
                    0 <= j < modules.len() && (#[trigger] modules[j]).base_address
                        > modules[last].base_address && now.end_address
                        == modules[j].base_address;
                assert(loses_code(modules, last));
            }
            assert(clamp_report(modules[last], modules) =~= Seq::empty());
            assert(places(count).filter(loses) == before);
            assert(before.map_values(report) + Seq::empty() =~= before.map_values(report));
        }
    }
}

/// Exactly the modules whose code reaches over the start of another one are
/// reported, in the order of the list, each with its name, where it starts, where its
/// code ends and where it was cut.
pub proof fn law_exactly_the_modules_that_lose_code_are_reported(
    modules: Seq<ModuleCandidateView>,
)
    ensures
        clamp_reports(modules, modules.len()) == places(modules.len()).filter(
            |i: int| loses_code(modules, i),
        ).map_values(
            |i: int|
                ModuleResolveErrorView::ModuleImageClamped {
                    name: name_or_empty(modules[i].name),
                    base_address: modules[i].base_address,
                    code_end: modules[i].code_end,
                    clamped_to: clamped_modules(modules)[i].end_address,
                },
        ),
{
    lemma_clamp_reports(modules, modules.len());
}

/// The reports on the first `count` modules that start like an earlier one, and no
/// others, in their order.
proof fn lemma_duplicate_reports(users: Seq<ModuleCandidateView>, count: nat)
    requires
        count <= users.len(),
    ensures
        duplicate_reports(users, count) == places(count).filter(
            |i: int| starts_like_an_earlier_one(users, i),
        ).map_values(
            |i: int|
                ModuleResolveErrorView::DuplicateUserModule {
                    name: name_or_empty(users[i].name),
                    base_address: users[i].base_address,
                },
        ),
    decreases count,
{
    let again = |i: int| starts_like_an_earlier_one(users, i);
    let report = |i: int|
        ModuleResolveErrorView::DuplicateUserModule {
            name: name_or_empty(users[i].name),
            base_address: users[i].base_address,
        };
    reveal(Seq::filter);
    if count == 0 {
        assert(places(0) =~= Seq::empty());
        assert(places(0).filter(again).map_values(report) =~= Seq::empty());
    } else {
        let last = count - 1;
        lemma_duplicate_reports(users, last as nat);
        assert(places(count).drop_last() =~= places(last as nat));
        assert(places(count).last() == last);
        let before = places(last as nat).filter(again);
        assert(starts_like_an_earlier_one(users, last) <==> starts_among(
            users,
            last,
            users[last].base_address,
        ));
        if starts_like_an_earlier_one(users, last) {
            assert(places(count).filter(again) == before.push(last));
            assert(before.push(last).map_values(report) =~= before.map_values(report).push(
                report(last),
            ));
        } else {
            assert(places(count).filter(again) == before);
        }
    }
}

/// Exactly the user's modules that start where an earlier one does are reported, in
/// the order given, each with its name and where it starts.
pub proof fn law_exactly_the_duplicates_are_reported(users: Seq<ModuleCandidateView>)
    ensures
        duplicate_reports(users, users.len()) == places(users.len()).filter(
            |i: int| starts_like_an_earlier_one(users, i),
        ).map_values(
            |i: int|
                ModuleResolveErrorView::DuplicateUserModule {
                    name: name_or_empty(users[i].name),
                    base_address: users[i].base_address,
                },
        ),
{
    lemma_duplicate_reports(users, users.len());
}

/// The reports on a list are those on the user's duplicates and then those on lost
/// code, and nothing else.
pub proof fn law_duplicates_are_reported_before_lost_code(
    candidates: Seq<ModuleCandidateView>,
    entry_point: Option<usize>,
)
    ensures
        ({
            let users = user_modules(candidates);
            let surviving = surviving_modules(candidates, entry_point);
            let duplicates = places(users.len()).filter(
                |i: int| starts_like_an_earlier_one(users, i),
            );
            let cut = places(surviving.len()).filter(|i: int| loses_code(surviving, i));
            let reports = resolve_reports(candidates, entry_point);
            &&& reports.len() == duplicates.len() + cut.len()
            &&& forall|k: int|
                0 <= k < duplicates.len() ==> #[trigger] reports[k] == (
                ModuleResolveErrorView::DuplicateUserModule {
                    name: name_or_empty(users[duplicates[k]].name),
                    base_address: users[duplicates[k]].base_address,
                })
            &&& forall|k: int|
                0 <= k < cut.len() ==> reports[duplicates.len() + k] == (
                ModuleResolveErrorView::ModuleImageClamped {
                    name: name_or_empty(surviving[#[trigger] cut[k]].name),
                    base_address: surviving[cut[k]].base_address,
                    code_end: surviving[cut[k]].code_end,
                    clamped_to: clamped_modules(surviving)[cut[k]].end_address,
                })
        }),
{
    law_exactly_the_duplicates_are_reported(user_modules(candidates));
    law_exactly_the_modules_that_lose_code_are_reported(
        surviving_modules(candidates, entry_point),
    );
}

/// A list can be resolved exactly if no module that survives ends before it starts.
pub proof fn law_a_list_resolves_unless_a_module_ends_early(
    candidates: Seq<ModuleCandidateView>,
    entry_point: Option<usize>,
)
    ensures
        survivors_wf(candidates, entry_point) <==> forall|i: int|
            0 <= i < surviving_modules(candidates, entry_point).len() ==> (
            #[trigger] surviving_modules(candidates, entry_point)[i]).base_address
                <= surviving_modules(candidates, entry_point)[i].end_address,
{
    let surviving = surviving_modules(candidates, entry_point);
    if survivors_wf(candidates, entry_point) {
        assert forall|i: int| 0 <= i < surviving.len() implies (
        #[trigger] surviving[i]).base_address <= surviving[i].end_address by {
            assert(surviving[i].wf());
        }
    }
}

} // verus!
