//! The search of directories: which files it takes, in which order, how deep.
use vstd::prelude::*;
use crate::laws::chars;
use crate::protocol::{
    EntryKind, EntryModel, LocationModel, PlaceModel, PlaceOf, ReplyOf, RequestOf, World,
};
use crate::walk;

verus! {

/// Whether `e` is a file whose name has as many characters as `name`, each the same
/// but for the case of an ASCII letter.
pub open spec fn is_hit(e: EntryModel, name: Seq<char>) -> bool {
    e.kind == EntryKind::File && chars::texts_same_but_case(e.name, name)
}

/// Only a file whose name is the wanted one, character by character up to case, is
/// taken.
pub proof fn law_hit(e: EntryModel, name: Seq<char>)
    ensures
        walk::is_named_file(e, name) <==> is_hit(e, name),
{
    chars::law_lower(e.name, name);
}

/// Whether `a` comes before `b` from the position `k` on, up to which they are the
/// same: it ends there and `b` does not, or it has the smaller byte.
pub open spec fn before_at(a: Seq<u8>, b: Seq<u8>, k: int) -> bool {
    &&& 0 <= k <= a.len()
    &&& k < b.len()
    &&& forall|i: int| 0 <= i < k ==> a[i] == #[trigger] b[i]
    &&& k < a.len() ==> a[k] < b[k]
}

/// Whether `a` comes before `b`, byte by byte.
pub open spec fn before(a: Seq<u8>, b: Seq<u8>) -> bool {
    exists|k: int| #[trigger] before_at(a, b, k)
}

/// Names are ordered byte by byte.
pub proof fn law_name_order(a: Seq<u8>, b: Seq<u8>)
    ensures
        walk::key_less(a, b) <==> before(a, b),
    decreases a.len(),
{
    if a.len() > 0 && b.len() > 0 && a[0] == b[0] {
        let c = a.drop_first();
        let d = b.drop_first();
        law_name_order(c, d);
        if before(c, d) {
            let k = choose|k: int| before_at(c, d, k);
            assert forall|i: int| 0 <= i < k + 1 implies a[i] == #[trigger] b[i] by {
                if i > 0 {
                    assert(c[i - 1] == d[i - 1]);
                }
            }
            assert(before_at(a, b, k + 1));
        }
        if before(a, b) {
            let k = choose|k: int| before_at(a, b, k);
            assert(k > 0);
            assert forall|i: int| 0 <= i < k - 1 implies c[i] == #[trigger] d[i] by {
                assert(a[i + 1] == b[i + 1]);
            }
            assert(before_at(c, d, k - 1));
        }
    } else if b.len() > 0 {
        if walk::key_less(a, b) {
            assert(before_at(a, b, 0));
        }
        if before(a, b) {
            let k = choose|k: int| before_at(a, b, k);
            if k > 0 {
                assert(a[0] == b[0]);
            }
        }
    }
}

/// The order of names, as far as one list of them needs it.
proof fn lemma_order(a: Seq<u8>, b: Seq<u8>, c: Seq<u8>)
    ensures
        !walk::key_less(a, a),
        walk::key_less(a, b) && !walk::key_less(c, b) ==> !walk::key_less(c, a),
        walk::key_less(a, b) ==> !walk::key_less(b, a),
    decreases a.len() + b.len() + c.len(),
{
    if a.len() > 0 {
        lemma_order(
            a.drop_first(),
            if b.len() > 0 { b.drop_first() } else { b },
            if c.len() > 0 { c.drop_first() } else { c },
        );
    }
}

/// [`law_own_file`], for the entry itself.
proof fn lemma_least(list: Seq<EntryModel>, name: Seq<char>)
    ensures
        match walk::least_file(list, name) {
            Some(e) => list.contains(e) && is_hit(e, name) && (forall|i: int|
                0 <= i < list.len() && is_hit(#[trigger] list[i], name) ==> !walk::key_less(
                    list[i].sort_key,
                    e.sort_key,
                )),
            None => forall|i: int| 0 <= i < list.len() ==> !is_hit(#[trigger] list[i], name),
        },
    decreases list.len(),
{
    if list.len() > 0 {
        let init = list.drop_last();
        let e = list.last();
        lemma_least(init, name);
        law_hit(e, name);
        assert forall|i: int| 0 <= i < init.len() implies #[trigger] list[i] == init[i] by {}
        match walk::least_file(init, name) {
            Some(best) => {
                let k = choose|k: int| 0 <= k < init.len() && init[k] == best;
                assert(list[k] == best);
                assert(list[list.len() - 1] == e);
                lemma_order(e.sort_key, e.sort_key, e.sort_key);
                assert forall|i: int|
                    0 <= i < list.len() && is_hit(#[trigger] list[i], name) implies !walk::key_less(
                    list[i].sort_key,
                    walk::least_file(list, name)->0.sort_key,
                ) by {
                    lemma_order(e.sort_key, best.sort_key, list[i].sort_key);
                    if i < init.len() {
                        assert(is_hit(init[i], name));
                    }
                }
            },
            None => {
                assert(list[list.len() - 1] == e);
                lemma_order(e.sort_key, e.sort_key, e.sort_key);
                assert forall|i: int| 0 <= i < list.len() && is_hit(#[trigger] list[i], name) implies i
                    == list.len() - 1 by {
                    if i < init.len() {
                        assert(!is_hit(init[i], name));
                    }
                }
            },
        }
    }
}

/// Whether `at` is where the entry `i` of `list` is, a hit that no other hit comes
/// before.
pub open spec fn is_first_hit(
    list: Seq<EntryModel>,
    name: Seq<char>,
    i: int,
    at: LocationModel,
) -> bool {
    &&& 0 <= i < list.len()
    &&& is_hit(list[i], name)
    &&& list[i].at == at
    &&& forall|j: int|
        0 <= j < list.len() && is_hit(#[trigger] list[j], name) ==> !before(
            list[j].sort_key,
            list[i].sort_key,
        )
}

/// Of the files in one directory, a hit is taken that no other hit comes before;
/// where there is a hit, one is taken.
pub proof fn law_own_file(list: Seq<EntryModel>, name: Seq<char>)
    ensures
        walk::first_file(list, name) matches Some(at) ==> exists|i: int| #[trigger]
            is_first_hit(list, name, i, at),
        walk::first_file(list, name) is None ==> forall|i: int|
            0 <= i < list.len() ==> !is_hit(#[trigger] list[i], name),
{
    lemma_least(list, name);
    if let Some(e) = walk::least_file(list, name) {
        let i = choose|i: int| 0 <= i < list.len() && list[i] == e;
        assert forall|j: int| 0 <= j < list.len() && is_hit(#[trigger] list[j], name) implies !before(
            list[j].sort_key,
            list[i].sort_key,
        ) by {
            law_name_order(list[j].sort_key, e.sort_key);
        }
        let at = walk::first_file(list, name)->0;
        assert(list[i].at == at);
        assert(is_first_hit(list, name, i, at));
    }
}

/// Whether the listing of `place` has the entry `e`.
pub open spec fn lists(w: World, place: PlaceModel, e: EntryModel) -> bool {
    w(RequestOf::List { place }) matches ReplyOf::Listing(Some(list)) && list.contains(e)
}

/// The directory that `steps` lead to from `place`.
pub open spec fn end_of(place: PlaceModel, steps: Seq<EntryModel>) -> PlaceModel {
    if steps.len() == 0 {
        place
    } else {
        PlaceOf::Entry(steps.last().at.id)
    }
}

/// Whether `steps` lead down from `place`, each a directory that the one before it
/// lists.
pub open spec fn leads_down(w: World, place: PlaceModel, steps: Seq<EntryModel>) -> bool {
    forall|i: int|
        0 <= i < steps.len() ==> (#[trigger] steps[i]).kind == EntryKind::Dir && lists(
            w,
            end_of(place, steps.take(i)),
            steps[i],
        )
}

/// Whether `steps` lead from `place` to a directory that has the hit `e`.
pub open spec fn leads_to_hit(
    w: World,
    name: Seq<char>,
    place: PlaceModel,
    steps: Seq<EntryModel>,
    e: EntryModel,
) -> bool {
    leads_down(w, place, steps) && lists(w, end_of(place, steps), e) && is_hit(e, name)
}

/// Steps, with one more before them.
proof fn lemma_step_first(
    w: World,
    place: PlaceModel,
    d: EntryModel,
    rest: Seq<EntryModel>,
)
    ensures
        leads_down(w, place, seq![d] + rest) <==> d.kind == EntryKind::Dir && lists(w, place, d)
            && leads_down(w, PlaceOf::Entry(d.at.id), rest),
        end_of(place, seq![d] + rest) == end_of(PlaceOf::Entry(d.at.id), rest),
{
    let steps = seq![d] + rest;
    let sub = PlaceOf::<Seq<char>>::Entry(d.at.id);
    assert forall|i: int| 0 <= i < rest.len() implies #[trigger] end_of(place, steps.take(i + 1))
        == end_of(sub, rest.take(i)) by {
        if i > 0 {
            assert(steps.take(i + 1).last() == rest.take(i).last());
        } else {
            assert(steps.take(i + 1).last() == d);
        }
    }
    assert(steps.take(0) =~= Seq::<EntryModel>::empty());
    if leads_down(w, place, steps) {
        assert(steps[0] == d);
        assert forall|i: int| 0 <= i < rest.len() implies (#[trigger] rest[i]).kind == EntryKind::Dir
            && lists(w, end_of(sub, rest.take(i)), rest[i]) by {
            assert(steps[i + 1] == rest[i]);
            assert(end_of(place, steps.take(i + 1)) == end_of(sub, rest.take(i)));
        }
    }
    if d.kind == EntryKind::Dir && lists(w, place, d) && leads_down(w, sub, rest) {
        assert forall|i: int| 0 <= i < steps.len() implies (#[trigger] steps[i]).kind
            == EntryKind::Dir && lists(w, end_of(place, steps.take(i)), steps[i]) by {
            if i > 0 {
                assert(steps[i] == rest[i - 1]);
                assert(end_of(place, steps.take(i - 1 + 1)) == end_of(sub, rest.take(i - 1)));
            }
        }
    }
    if rest.len() > 0 {
        assert(steps.last() == rest.last());
    } else {
        assert(steps.last() == d);
    }
}

/// The directories that are visited are those that are listed.
proof fn lemma_dirs(list: Seq<EntryModel>)
    ensures
        forall|i: int|
            0 <= i < walk::ordered_dirs(list).len() ==> list.contains(
                #[trigger] walk::ordered_dirs(list)[i],
            ) && walk::ordered_dirs(list)[i].kind == EntryKind::Dir,
        forall|i: int|
            0 <= i < list.len() && (#[trigger] list[i]).kind == EntryKind::Dir
                ==> walk::ordered_dirs(list).contains(list[i]),
    decreases list.len(),
{
    if list.len() > 0 {
        let init = list.drop_last();
        let e = list.last();
        let sorted = walk::ordered_dirs(init);
        lemma_dirs(init);
        assert(list =~= init.push(e));
        if e.kind == EntryKind::Dir {
            lemma_inserted(sorted, e);
        }
        let all = walk::ordered_dirs(list);
        assert forall|i: int| 0 <= i < all.len() implies list.contains(#[trigger] all[i])
            && all[i].kind == EntryKind::Dir by {
            if e.kind == EntryKind::Dir {
                assert(all.contains(all[i]));
                if all[i] == e {
                    assert(list[list.len() - 1] == e);
                } else {
                    let k = choose|k: int| 0 <= k < sorted.len() && sorted[k] == all[i];
                    let m = choose|m: int| 0 <= m < init.len() && init[m] == sorted[k];
                    assert(list[m] == all[i]);
                }
            } else {
                let m = choose|m: int| 0 <= m < init.len() && init[m] == sorted[i];
                assert(list[m] == all[i]);
            }
        }
        assert forall|i: int|
            0 <= i < list.len() && (#[trigger] list[i]).kind == EntryKind::Dir implies all.contains(
            list[i],
        ) by {
            if i < init.len() {
                assert(init[i] == list[i]);
                assert(sorted.contains(list[i]));
            }
        }
    }
}

/// What a list holds once an entry is put in.
proof fn lemma_inserted(list: Seq<EntryModel>, e: EntryModel)
    ensures
        forall|x: EntryModel| #[trigger]
            walk::insert_ordered(list, e).contains(x) <==> list.contains(x) || x == e,
    decreases list.len(),
{
    let all = walk::insert_ordered(list, e);
    if list.len() > 0 && walk::key_less(e.sort_key, list.last().sort_key) {
        let init = list.drop_last();
        let less = walk::insert_ordered(init, e);
        lemma_inserted(init, e);
        assert forall|x: EntryModel| #[trigger] all.contains(x) <==> list.contains(x) || x == e by {
            assert(less.contains(x) <==> init.contains(x) || x == e);
            if all.contains(x) {
                let k = choose|k: int| 0 <= k < all.len() && all[k] == x;
                if k < less.len() {
                    assert(less[k] == x);
                    if init.contains(x) {
                        let m = choose|m: int| 0 <= m < init.len() && init[m] == x;
                        assert(list[m] == x);
                    }
                } else {
                    assert(list[list.len() - 1] == x);
                }
            }
            if list.contains(x) || x == e {
                if list.contains(x) {
                    let m = choose|m: int| 0 <= m < list.len() && list[m] == x;
                    if m < init.len() {
                        assert(init[m] == x);
                    } else {
                        assert(all[less.len() as int] == x);
                    }
                }
                if less.contains(x) {
                    let k = choose|k: int| 0 <= k < less.len() && less[k] == x;
                    assert(all[k] == x);
                }
            }
        }
    } else {
        assert forall|x: EntryModel| #[trigger] all.contains(x) <==> list.contains(x) || x == e by {
            if list.contains(x) {
                let m = choose|m: int| 0 <= m < list.len() && list[m] == x;
                assert(all[m] == x);
            }
            assert(all[list.len() as int] == e);
            if all.contains(x) {
                let k = choose|k: int| 0 <= k < all.len() && all[k] == x;
                if k < list.len() {
                    assert(list[k] == x);
                }
            }
        }
    }
}

/// The first of several directories that has the file gives it; where none has it,
/// nothing is found.
pub proof fn law_first_place(
    w: World,
    name: Seq<char>,
    places: Seq<PlaceModel>,
    below: nat,
    i: int,
)
    requires
        0 <= i <= places.len(),
        forall|j: int| 0 <= j < i ==> walk::find_in_dir(w, name, #[trigger] places[j], below) is None,
        i < places.len() ==> walk::find_in_dir(w, name, places[i], below) is Some,
    ensures
        i < places.len() ==> walk::find_in_dirs(w, name, places, below) == walk::find_in_dir(
            w,
            name,
            places[i],
            below,
        ),
        i == places.len() ==> walk::find_in_dirs(w, name, places, below) is None,
    decreases places.len(),
{
    if i > 0 {
        let rest = places.drop_first();
        assert(walk::find_in_dir(w, name, places[0], below) is None);
        assert forall|j: int| 0 <= j < i - 1 implies walk::find_in_dir(
            w,
            name,
            #[trigger] rest[j],
            below,
        ) is None by {
            assert(rest[j] == places[j + 1]);
        }
        if i < places.len() {
            assert(rest[i - 1] == places[i]);
        }
        law_first_place(w, name, rest, below, i - 1);
    }
}

/// Which of several directories gives what is found.
proof fn lemma_which(w: World, name: Seq<char>, places: Seq<PlaceModel>, below: nat) -> (i: int)
    ensures
        0 <= i <= places.len(),
        forall|j: int| 0 <= j < i ==> walk::find_in_dir(w, name, #[trigger] places[j], below) is None,
        i < places.len() ==> walk::find_in_dir(w, name, places[i], below) is Some
            && walk::find_in_dirs(w, name, places, below) == walk::find_in_dir(
            w,
            name,
            places[i],
            below,
        ),
        i == places.len() ==> walk::find_in_dirs(w, name, places, below) is None,
    decreases places.len(),
{
    if places.len() == 0 {
        0
    } else if walk::find_in_dir(w, name, places[0], below) is Some {
        0
    } else {
        let rest = places.drop_first();
        let k = lemma_which(w, name, rest, below);
        assert forall|j: int| 0 <= j < k + 1 implies walk::find_in_dir(
            w,
            name,
            #[trigger] places[j],
            below,
        ) is None by {
            if j > 0 {
                assert(rest[j - 1] == places[j]);
            }
        }
        if k < rest.len() {
            assert(rest[k] == places[k + 1]);
        }
        k + 1
    }
}

/// What a search finds in a directory is a hit: a file of the wanted name, that is,
/// neither a longer nor a shorter one, in that directory or at most so many levels
/// below it.
pub proof fn law_found(w: World, name: Seq<char>, place: PlaceModel, below: nat)
    ensures
        walk::find_in_dir(w, name, place, below) matches Some(at) ==> exists|
            steps: Seq<EntryModel>,
            e: EntryModel,
        |
            steps.len() <= below && #[trigger] leads_to_hit(w, name, place, steps, e) && e.at == at,
    decreases below,
{
    if let Some(at) = walk::find_in_dir(w, name, place, below) {
        let list = walk::listing(w, place)->0;
        law_own_file(list, name);
        let none = Seq::<EntryModel>::empty();
        match walk::first_file(list, name) {
            Some(_) => {
                let i = choose|i: int| is_first_hit(list, name, i, at);
                assert(lists(w, end_of(place, none), list[i]));
                assert(leads_to_hit(w, name, place, none, list[i]));
            },
            None => {
                let less = (below - 1) as nat;
                let dirs = walk::ordered_dirs(list);
                let i = lemma_which(w, name, walk::as_places(dirs), less);
                lemma_dirs(list);
                let d = dirs[i];
                let sub = PlaceOf::<Seq<char>>::Entry(d.at.id);
                assert(walk::as_places(dirs)[i] == sub);
                law_found(w, name, sub, less);
                let (rest, e) = choose|rest: Seq<EntryModel>, e: EntryModel|
                    rest.len() <= less && #[trigger] leads_to_hit(w, name, sub, rest, e) && e.at
                        == at;
                lemma_step_first(w, place, d, rest);
                assert(leads_to_hit(w, name, place, seq![d] + rest, e));
            },
        }
    }
}

/// No hit is missed: where a search finds nothing, no directory that it reaches has
/// one.
pub proof fn law_none_missed(
    w: World,
    name: Seq<char>,
    place: PlaceModel,
    below: nat,
    steps: Seq<EntryModel>,
    e: EntryModel,
)
    requires
        steps.len() <= below,
        leads_to_hit(w, name, place, steps, e),
    ensures
        walk::find_in_dir(w, name, place, below) is Some,
    decreases below,
{
    if steps.len() == 0 {
        let list = walk::listing(w, place)->0;
        law_own_file(list, name);
        let i = choose|i: int| 0 <= i < list.len() && list[i] == e;
        assert(is_hit(list[i], name));
    } else {
        let d = steps[0];
        let rest = steps.drop_first();
        let less = (below - 1) as nat;
        let sub = PlaceOf::<Seq<char>>::Entry(d.at.id);
        assert(steps =~= seq![d] + rest);
        lemma_step_first(w, place, d, rest);
        law_none_missed(w, name, sub, less, rest, e);
        let list = walk::listing(w, place)->0;
        let dirs = walk::ordered_dirs(list);
        lemma_dirs(list);
        let k = choose|k: int| 0 <= k < list.len() && list[k] == d;
        assert(list[k].kind == EntryKind::Dir);
        let m = choose|m: int| 0 <= m < dirs.len() && dirs[m] == d;
        assert(walk::as_places(dirs)[m] == sub);
        let i = lemma_which(w, name, walk::as_places(dirs), less);
    }
}

/// The files of a directory come before its subdirectories.
pub proof fn law_files_first(
    w: World,
    name: Seq<char>,
    place: PlaceModel,
    below: nat,
    list: Seq<EntryModel>,
)
    requires
        w(RequestOf::List { place }) == ReplyOf::<Seq<char>, Seq<u8>, Seq<EntryModel>>::Listing(
            Some(list),
        ),
        exists|i: int| 0 <= i < list.len() && is_hit(#[trigger] list[i], name),
    ensures
        exists|i: int, at: LocationModel| #[trigger]
            is_first_hit(list, name, i, at) && walk::find_in_dir(w, name, place, below) == Some(at),
{
    law_own_file(list, name);
    if let Some(at) = walk::first_file(list, name) {
        let i = choose|i: int| is_first_hit(list, name, i, at);
        assert(is_first_hit(list, name, i, at));
    }
}

/// Whether `d` is a subdirectory in `list` under which `at` is found, while nothing
/// is found under any that comes before it.
pub open spec fn is_first_dir(
    w: World,
    name: Seq<char>,
    list: Seq<EntryModel>,
    d: EntryModel,
    at: LocationModel,
    below: nat,
) -> bool {
    &&& list.contains(d)
    &&& d.kind == EntryKind::Dir
    &&& walk::find_in_dir(w, name, PlaceOf::Entry(d.at.id), below) == Some(at)
    &&& forall|i: int|
        0 <= i < list.len() && (#[trigger] list[i]).kind == EntryKind::Dir && before(
            list[i].sort_key,
            d.sort_key,
        ) ==> walk::find_in_dir(w, name, PlaceOf::Entry(list[i].at.id), below) is None
}

/// The subdirectories come in the order of their names.
pub proof fn law_dirs_in_order(
    w: World,
    name: Seq<char>,
    place: PlaceModel,
    below: nat,
    list: Seq<EntryModel>,
)
    requires
        w(RequestOf::List { place }) == ReplyOf::<Seq<char>, Seq<u8>, Seq<EntryModel>>::Listing(
            Some(list),
        ),
        forall|i: int| 0 <= i < list.len() ==> !is_hit(#[trigger] list[i], name),
    ensures
        walk::find_in_dir(w, name, place, below) matches Some(at) ==> below > 0 && exists|
            d: EntryModel,
        | #[trigger] is_first_dir(w, name, list, d, at, (below - 1) as nat),
{
    law_own_file(list, name);
    if let Some(at) = walk::first_file(list, name) {
        let i = choose|i: int| is_first_hit(list, name, i, at);
        assert(is_hit(list[i], name));
    }
    if let Some(at) = walk::find_in_dir(w, name, place, below) {
        let less = (below - 1) as nat;
        let dirs = walk::ordered_dirs(list);
        let places = walk::as_places(dirs);
        let k = lemma_which(w, name, places, less);
        let d = dirs[k];
        lemma_dirs(list);
        walk::law_ordered_dirs(list);
        assert(places[k] == PlaceOf::<Seq<char>>::Entry(d.at.id));
        assert forall|i: int|
            0 <= i < list.len() && (#[trigger] list[i]).kind == EntryKind::Dir && before(
                list[i].sort_key,
                d.sort_key,
            ) implies walk::find_in_dir(w, name, PlaceOf::Entry(list[i].at.id), less) is None by {
            law_name_order(list[i].sort_key, d.sort_key);
            let m = choose|m: int| 0 <= m < dirs.len() && dirs[m] == list[i];
            lemma_order(d.sort_key, d.sort_key, d.sort_key);
            assert(m < k) by {
                if k < m {
                    assert(!walk::key_less(dirs[m].sort_key, dirs[k].sort_key));
                }
            }
            assert(places[m] == PlaceOf::<Seq<char>>::Entry(list[i].at.id));
        }
        assert(is_first_dir(w, name, list, d, at, less));
    }
}

/// The places of an install prefix that are searched, in this order.
pub open spec fn is_place(script: u64, i: int, place: PlaceModel) -> bool {
    ||| i == 0 && place == (PlaceOf::UnderPrefix { script, name: "share"@ })
    ||| i == 1 && place == (PlaceOf::UnderPrefix { script, name: "opt"@ })
    ||| i == 2 && place == (PlaceOf::UnderPrefix { script, name: "libexec"@ })
    ||| i == 3 && place == (PlaceOf::UnderPrefix { script, name: "lib"@ })
    ||| i == 4 && place == (PlaceOf::UnderPrefix { script, name: "jars"@ })
    ||| i == 5 && place == (PlaceOf::<Seq<char>>::ScriptDir { script })
    ||| i == 6 && place == (PlaceOf::<Seq<char>>::Prefix { script })
}

/// A jar is looked for by its name in seven places, in this order, seven levels of
/// directories deep: what the first of them has is found.
pub proof fn law_prefix(w: World, script: u64, name: Seq<char>, i: int, place: PlaceModel)
    requires
        is_place(script, i, place),
        forall|j: int, p: PlaceModel|
            j < i && #[trigger] is_place(script, j, p) ==> walk::find_in_dir(w, name, p, 6) is None,
    ensures
        walk::find_in_dir(w, name, place, 6) is Some ==> walk::walk_result(
            w,
            walk::search_start(script, name),
        ) == walk::find_in_dir(w, name, place, 6),
        i == 6 && walk::find_in_dir(w, name, place, 6) is None ==> walk::walk_result(
            w,
            walk::search_start(script, name),
        ) is None,
{
    let places = walk::search_places(script);
    walk::law_prefix_start(w, script, name);
    assert forall|j: int| 0 <= j < 7 implies is_place(script, j, #[trigger] places[j]) by {
        assert(j == 0 || j == 1 || j == 2 || j == 3 || j == 4 || j == 5 || j == 6);
    }
    assert(is_place(script, i, places[i]));
    assert(place == places[i]);
    assert forall|j: int| 0 <= j < i implies walk::find_in_dir(
        w,
        name,
        #[trigger] places[j],
        6,
    ) is None by {
        assert(is_place(script, j, places[j]));
    }
    if walk::find_in_dir(w, name, place, 6) is Some {
        law_first_place(w, name, places, 6, i);
    } else if i == 6 {
        law_first_place(w, name, places, 6, 7);
    }
}

/// A walk to a depth reaches the directories down to it, its own counted; one to
/// depth zero reaches none.
pub proof fn law_walk(w: World, place: PlaceModel, name: Seq<char>, depth: nat)
    ensures
        depth == 0 ==> walk::walk_result(w, walk::walk_start(place, name, depth)) is None,
        depth > 0 ==> walk::walk_result(w, walk::walk_start(place, name, depth))
            == walk::find_in_dir(w, name, place, (depth - 1) as nat),
{
    walk::law_walk_start(w, place, name, depth);
}

} // verus!
