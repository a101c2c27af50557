//! The search for a jar by name in an install prefix.
//!
//! Directories are searched to a bounded depth. The files of a directory come
//! before its subdirectories, and both come in the order of their names, whatever
//! the order in which the directory is listed.
use vstd::prelude::*;
use crate::protocol::{
    DirEntry, EntryKind, EntryModel, Location, LocationModel, Place, PlaceModel, PlaceOf,
    Reply, ReplyModel, ReplyOf, Request, RequestModel, RequestOf, World,
};
use crate::protocol;
use crate::text;

verus! {

/// How deep a prefix is searched.
pub const SEARCH_DEPTH: usize = 7;

// ---------------------------------------------------------------------------
// One directory
// ---------------------------------------------------------------------------
/// Whether the bytes `a` come before `b`.
pub open spec fn key_less(a: Seq<u8>, b: Seq<u8>) -> bool
    decreases a.len(),
{
    if b.len() == 0 {
        false
    } else if a.len() == 0 {
        true
    } else if a[0] != b[0] {
        a[0] < b[0]
    } else {
        key_less(a.drop_first(), b.drop_first())
    }
}

/// Whether `e` is a file with the given name, in any mix of cases.
pub open spec fn is_named_file(e: EntryModel, name: Seq<char>) -> bool {
    e.kind == EntryKind::File && text::ascii_lower(e.name) == text::ascii_lower(name)
}

/// Of the files in `list` with the given name, the one whose own name comes first.
pub open spec fn least_file(list: Seq<EntryModel>, name: Seq<char>) -> Option<EntryModel>
    decreases list.len(),
{
    if list.len() == 0 {
        None
    } else {
        let e = list.last();
        match least_file(list.drop_last(), name) {
            Some(best) => if is_named_file(e, name) && key_less(e.sort_key, best.sort_key) {
                Some(e)
            } else {
                Some(best)
            },
            None => if is_named_file(e, name) {
                Some(e)
            } else {
                None
            },
        }
    }
}

/// Where the file is that [`least_file`] picks.
pub open spec fn first_file(list: Seq<EntryModel>, name: Seq<char>) -> Option<LocationModel> {
    match least_file(list, name) {
        Some(e) => Some(e.at),
        None => None,
    }
}

/// The ordered `list` with `e` put behind all that do not come after it.
pub open spec fn insert_ordered(list: Seq<EntryModel>, e: EntryModel) -> Seq<EntryModel>
    decreases list.len(),
{
    if list.len() > 0 && key_less(e.sort_key, list.last().sort_key) {
        insert_ordered(list.drop_last(), e).push(list.last())
    } else {
        list.push(e)
    }
}

/// The directories of `list` in the order of their names.
pub open spec fn ordered_dirs(list: Seq<EntryModel>) -> Seq<EntryModel>
    decreases list.len(),
{
    if list.len() == 0 {
        Seq::empty()
    } else if list.last().kind == EntryKind::Dir {
        insert_ordered(ordered_dirs(list.drop_last()), list.last())
    } else {
        ordered_dirs(list.drop_last())
    }
}

/// The entries `dirs` as places to list.
pub open spec fn as_places(dirs: Seq<EntryModel>) -> Seq<PlaceModel> {
    dirs.map_values(|e: EntryModel| PlaceOf::<Seq<char>>::Entry(e.at.id))
}

/// `places`, each to be searched with so many levels below it.
pub open spec fn each_with(places: Seq<PlaceModel>, below: nat) -> Seq<(PlaceModel, nat)> {
    places.map_values(|p: PlaceModel| (p, below))
}

/// What is to be searched under a directory with the entries `list` and `below`
/// levels below it: its subdirectories, with one level less.
pub open spec fn under(list: Seq<EntryModel>, below: nat) -> Seq<(PlaceModel, nat)> {
    if below == 0 {
        Seq::empty()
    } else {
        each_with(as_places(ordered_dirs(list)), (below - 1) as nat)
    }
}

/// Whether the bytes `a` come before `b`.
fn comes_before(a: &Vec<u8>, b: &Vec<u8>) -> (r: bool)
    ensures
        r == key_less(a@, b@),
{
    let mut i: usize = 0;
    proof {
        assert(a@.skip(0) == a@);
        assert(b@.skip(0) == b@);
    }
    while i < a.len() && i < b.len() && a[i] == b[i]
        invariant
            i <= a@.len(),
            i <= b@.len(),
            key_less(a@, b@) == key_less(a@.skip(i as int), b@.skip(i as int)),
        decreases a@.len() - i,
    {
        proof {
            assert(a@.skip(i as int).drop_first() == a@.skip(i + 1));
            assert(b@.skip(i as int).drop_first() == b@.skip(i + 1));
        }
        i = i + 1;
    }
    if i == b.len() {
        false
    } else if i == a.len() {
        true
    } else {
        a[i] < b[i]
    }
}

/// The place in `list` of the file with the given name whose own name comes first.
fn find_file(list: &Vec<DirEntry>, name: &Vec<char>) -> (r: Option<usize>)
    ensures
        match r {
            Some(i) => i < list@.len() && least_file(protocol::entries(list@), name@) == Some(
                list@[i as int]@,
            ),
            None => least_file(protocol::entries(list@), name@) is None,
        },
{
    let ghost all = protocol::entries(list@);
    let mut best: Option<usize> = None;
    let mut i: usize = 0;
    assert(all.take(0) =~= Seq::empty());
    while i < list.len()
        invariant
            i <= list@.len(),
            all == protocol::entries(list@),
            match best {
                Some(b) => b < list@.len() && least_file(all.take(i as int), name@) == Some(
                    list@[b as int]@,
                ),
                None => least_file(all.take(i as int), name@) is None,
            },
        decreases list@.len() - i,
    {
        proof {
            assert(all.take(i + 1).drop_last() == all.take(i as int));
            assert(all.take(i + 1).last() == list@[i as int]@);
        }
        let is_file: bool = match list[i].kind {
            EntryKind::File => true,
            _ => false,
        };
        let entry_name: Vec<char> = text::chars_of(list[i].name.as_str());
        if is_file && text::same_ignoring_case(entry_name.as_slice(), name.as_slice()) {
            let is_less: bool = match best {
                Some(b) => comes_before(&list[i].sort_key, &list[b].sort_key),
                None => true,
            };
            if is_less {
                best = Some(i);
            }
        }
        i = i + 1;
    }
    assert(all.take(list@.len() as int) == all);
    best
}

/// The entries of `list` at the indices `order`.
spec fn picked(list: Seq<EntryModel>, order: Seq<usize>) -> Seq<EntryModel> {
    order.map_values(|i: usize| list[i as int])
}

/// The directories of `list` in the order of their names, by their indices.
fn order_dirs(list: &Vec<DirEntry>) -> (r: Vec<usize>)
    ensures
        forall|i: int| 0 <= i < r@.len() ==> (#[trigger] r@[i]) < list@.len(),
        picked(protocol::entries(list@), r@) == ordered_dirs(protocol::entries(list@)),
{
    let ghost all = protocol::entries(list@);
    let mut order: Vec<usize> = Vec::new();
    let mut i: usize = 0;
    assert(all.take(0) =~= Seq::empty());
    assert(picked(all, order@) =~= Seq::empty());
    while i < list.len()
        invariant
            i <= list@.len(),
            all == protocol::entries(list@),
            forall|j: int| 0 <= j < order@.len() ==> (#[trigger] order@[j]) < list@.len(),
            picked(all, order@) == ordered_dirs(all.take(i as int)),
        decreases list@.len() - i,
    {
        proof {
            assert(all.take(i + 1).drop_last() == all.take(i as int));
            assert(all.take(i + 1).last() == list@[i as int]@);
        }
        let is_dir: bool = match list[i].kind {
            EntryKind::Dir => true,
            _ => false,
        };
        if is_dir {
            let ghost before = picked(all, order@);
            let ghost e = list@[i as int]@;
            let mut at: usize = order.len();
            assert(before.take(at as int) == before);
            assert(before.skip(at as int) =~= Seq::empty());
            assert(insert_ordered(before, e) =~= insert_ordered(before.take(at as int), e)
                + before.skip(at as int));
            while at > 0 && comes_before(&list[i].sort_key, &list[order[at - 1]].sort_key)
                invariant
                    at <= order@.len(),
                    i < list@.len(),
                    all == protocol::entries(list@),
                    e == list@[i as int]@,
                    before == picked(all, order@),
                    forall|j: int| 0 <= j < order@.len() ==> (#[trigger] order@[j]) < list@.len(),
                    insert_ordered(before, e) =~= insert_ordered(before.take(at as int), e)
                        + before.skip(at as int),
                decreases at,
            {
                proof {
                    let shown = before.take(at as int);
                    assert(shown.last() == all[order@[at - 1] as int]);
                    assert(shown.drop_last() == before.take(at - 1));
                    assert(before.skip(at - 1) =~= seq![shown.last()] + before.skip(at as int));
                }
                at = at - 1;
            }
            proof {
                if at > 0 {
                    assert(before.take(at as int).last() == all[order@[at - 1] as int]);
                }
                assert(insert_ordered(before.take(at as int), e) == before.take(at as int).push(e));
            }
            let ghost old_order = order@;
            order.insert(at, i);
            proof {
                assert(picked(all, order@) =~= before.take(at as int).push(e) + before.skip(
                    at as int,
                ));
            }
        }
        i = i + 1;
    }
    assert(all.take(list@.len() as int) == all);
    order
}

// ---------------------------------------------------------------------------
// The walk
// ---------------------------------------------------------------------------
/// A search for a file by its name: the directories that are still to be searched,
/// in order, each with the number of levels to search below it.
#[derive(Debug)]
pub struct Walk {
    name: Vec<char>,
    pending: Vec<(Place, usize)>,
    found: Option<Location>,
}

/// The view of a [`Walk`].
#[verifier::ext_equal]
pub struct WalkModel {
    /// The name to find.
    pub name: Seq<char>,
    /// What is still to be searched.
    pub pending: Seq<(PlaceModel, nat)>,
    /// The file, once it is found.
    pub found: Option<LocationModel>,
}

/// The pairs `v`, by their views.
spec fn pending_view(v: Seq<(Place, usize)>) -> Seq<(PlaceModel, nat)> {
    v.map_values(|p: (Place, usize)| (p.0@, p.1 as nat))
}

impl View for Walk {
    type V = WalkModel;

    closed spec fn view(&self) -> WalkModel {
        WalkModel {
            name: self.name@,
            pending: pending_view(self.pending@),
            found: protocol::opt_location(self.found),
        }
    }
}

/// The places in which a jar is looked for by its name: the usual directories of
/// an install prefix, that of the script, and the prefix as a whole.
pub open spec fn search_places(script: u64) -> Seq<PlaceModel> {
    seq![
        PlaceOf::UnderPrefix { script, name: "share"@ },
        PlaceOf::UnderPrefix { script, name: "opt"@ },
        PlaceOf::UnderPrefix { script, name: "libexec"@ },
        PlaceOf::UnderPrefix { script, name: "lib"@ },
        PlaceOf::UnderPrefix { script, name: "jars"@ },
        PlaceOf::ScriptDir { script },
        PlaceOf::Prefix { script },
    ]
}

/// The search for `name` in all of [`search_places`], at its beginning.
pub open spec fn search_start(script: u64, name: Seq<char>) -> WalkModel {
    WalkModel {
        name,
        pending: each_with(search_places(script), (SEARCH_DEPTH - 1) as nat),
        found: None,
    }
}

/// The search for `name` in `place`, `depth` levels of directories deep, at its
/// beginning.
pub open spec fn walk_start(place: PlaceModel, name: Seq<char>, depth: nat) -> WalkModel {
    WalkModel {
        name,
        pending: if depth == 0 {
            Seq::empty()
        } else {
            seq![(place, (depth - 1) as nat)]
        },
        found: None,
    }
}

/// What a search asks for next: the listing of the first directory that is still
/// to be searched; nothing once the file is found or no directory is left.
pub open spec fn walk_request(m: WalkModel) -> Option<RequestModel> {
    if m.found is Some || m.pending.len() == 0 {
        None
    } else {
        Some(RequestOf::List { place: m.pending[0].0 })
    }
}

/// How a search goes on with a reply. A listing that holds the file ends it;
/// another one puts its directories before those that are still to be searched.
pub open spec fn walk_answered(m: WalkModel, reply: ReplyModel) -> WalkModel {
    match reply {
        ReplyOf::Listing(listing) if walk_request(m) is Some => {
            let rest = m.pending.drop_first();
            match listing {
                None => WalkModel { pending: rest, ..m },
                Some(list) => match first_file(list, m.name) {
                    Some(at) => WalkModel { pending: rest, found: Some(at), ..m },
                    None => WalkModel { pending: under(list, m.pending[0].1) + rest, ..m },
                },
            }
        },
        _ => m,
    }
}

/// Starts the search of the common jar locations under the install prefix of
/// `script` for a file with the given basename.
pub fn search_prefix_for_jar(script: u64, basename: &str) -> (r: Walk)
    ensures
        r@ == search_start(script, basename@),
{
    let below: usize = SEARCH_DEPTH - 1;
    let mut pending: Vec<(Place, usize)> = Vec::new();
    pending.push((PlaceOf::UnderPrefix { script, name: "share".to_owned() }, below));
    pending.push((PlaceOf::UnderPrefix { script, name: "opt".to_owned() }, below));
    pending.push((PlaceOf::UnderPrefix { script, name: "libexec".to_owned() }, below));
    pending.push((PlaceOf::UnderPrefix { script, name: "lib".to_owned() }, below));
    pending.push((PlaceOf::UnderPrefix { script, name: "jars".to_owned() }, below));
    pending.push((PlaceOf::ScriptDir { script }, below));
    pending.push((PlaceOf::Prefix { script }, below));
    let r: Walk = Walk { name: text::chars_of(basename), pending, found: None };
    assert(r@.pending =~= search_start(script, basename@).pending);
    r
}

/// Starts a depth-bounded search for a file named `name` (case-insensitive) under
/// `place`. Files in a directory are checked before its subdirectories; these are
/// visited in sorted order for deterministic results.
pub fn walk_find(place: Place, name: &str, depth: usize) -> (r: Walk)
    ensures
        r@ == walk_start(place@, name@, depth as nat),
{
    let mut pending: Vec<(Place, usize)> = Vec::new();
    if depth > 0 {
        pending.push((place, depth - 1));
    }
    let r: Walk = Walk { name: text::chars_of(name), pending, found: None };
    assert(r@.pending =~= walk_start(place@, name@, depth as nat).pending);
    r
}

impl Walk {
    /// What the search asks for next; `None` once it is over.
    pub fn request(&self) -> (r: Option<Request>)
        ensures
            match r {
                Some(request) => walk_request(self@) == Some(request@),
                None => walk_request(self@) is None,
            },
    {
        if self.found.is_some() || self.pending.len() == 0 {
            None
        } else {
            Some(RequestOf::List { place: self.pending[0].0.copied() })
        }
    }

    /// Goes on with a reply. One that was not asked for changes nothing.
    pub fn answer(self, reply: Reply) -> (r: Walk)
        ensures
            r@ == walk_answered(self@, reply@),
    {
        let ghost m = self@;
        match reply {
            ReplyOf::Listing(listing) => {
                if self.found.is_some() || self.pending.len() == 0 {
                    return self;
                }
                let mut rest: Vec<(Place, usize)> = self.pending;
                let ghost all = rest@;
                let below: usize = rest[0].1;
                rest.remove(0);
                assert(pending_view(rest@) =~= m.pending.drop_first());
                match listing {
                    None => Walk { name: self.name, pending: rest, found: None },
                    Some(list) => {
                        let mut list: Vec<DirEntry> = list;
                        match find_file(&list, &self.name) {
                            Some(i) => {
                                let hit: DirEntry = list.swap_remove(i);
                                Walk { name: self.name, pending: rest, found: Some(hit.at) }
                            },
                            None => {
                                let mut pending: Vec<(Place, usize)> = if below == 0 {
                                    Vec::new()
                                } else {
                                    dirs_to_search(&list, below - 1)
                                };
                                assert(pending_view(pending@) =~= under(
                                    protocol::entries(list@),
                                    below as nat,
                                ));
                                let ghost first = pending@;
                                let ghost second = rest@;
                                pending.append(&mut rest);
                                assert(pending_view(pending@) =~= pending_view(first)
                                    + pending_view(second));
                                Walk { name: self.name, pending, found: None }
                            },
                        }
                    },
                }
            },
            _ => self,
        }
    }

    /// The file that was found, once the search is over.
    pub fn found(self) -> (r: Option<Location>)
        ensures
            protocol::opt_location(r) == self@.found,
    {
        self.found
    }
}

/// The directories of `list` in the order of their names, each to be searched with
/// `below` levels below it.
fn dirs_to_search(list: &Vec<DirEntry>, below: usize) -> (r: Vec<(Place, usize)>)
    ensures
        pending_view(r@) == each_with(
            as_places(ordered_dirs(protocol::entries(list@))),
            below as nat,
        ),
{
    let order: Vec<usize> = order_dirs(list);
    let ghost all = protocol::entries(list@);
    let mut out: Vec<(Place, usize)> = Vec::new();
    let mut i: usize = 0;
    while i < order.len()
        invariant
            i <= order@.len(),
            all == protocol::entries(list@),
            forall|j: int| 0 <= j < order@.len() ==> (#[trigger] order@[j]) < list@.len(),
            out@.len() == i,
            forall|j: int|
                0 <= j < i ==> (#[trigger] out@[j]).0@ == PlaceOf::<Seq<char>>::Entry(
                    all[order@[j] as int].at.id,
                ) && out@[j].1 == below,
        decreases order@.len() - i,
    {
        out.push((PlaceOf::Entry(list[order[i]].at.id), below));
        i = i + 1;
    }
    proof {
        assert(pending_view(out@) =~= each_with(as_places(picked(all, order@)), below as nat));
    }
    out
}

// ---------------------------------------------------------------------------
// What a walk finds
// ---------------------------------------------------------------------------
/// The entries of the directory `place`, unless it cannot be listed.
pub open spec fn listing(w: World, place: PlaceModel) -> Option<Seq<EntryModel>> {
    match w(RequestOf::List { place }) {
        ReplyOf::Listing(list) => list,
        _ => None,
    }
}

/// The file with the given name that is found in the directory `place`: one of its
/// own files, or else what is found in its subdirectories, in order, as long as
/// there are levels left.
pub open spec fn find_in_dir(w: World, name: Seq<char>, place: PlaceModel, below: nat) -> Option<
    LocationModel,
>
    decreases below, 0nat,
{
    match listing(w, place) {
        None => None,
        Some(list) => match first_file(list, name) {
            Some(at) => Some(at),
            None => if below == 0 {
                None
            } else {
                find_in_dirs(w, name, as_places(ordered_dirs(list)), (below - 1) as nat)
            },
        },
    }
}

/// What is found in the first of `places` that has the file.
pub open spec fn find_in_dirs(
    w: World,
    name: Seq<char>,
    places: Seq<PlaceModel>,
    below: nat,
) -> Option<LocationModel>
    decreases below, places.len(),
{
    if places.len() == 0 {
        None
    } else {
        match find_in_dir(w, name, places[0], below) {
            Some(at) => Some(at),
            None => find_in_dirs(w, name, places.drop_first(), below),
        }
    }
}

/// What is found in the first of `pending` that has the file.
pub open spec fn find_in_pending(
    w: World,
    name: Seq<char>,
    pending: Seq<(PlaceModel, nat)>,
) -> Option<LocationModel>
    decreases pending.len(),
{
    if pending.len() == 0 {
        None
    } else {
        match find_in_dir(w, name, pending[0].0, pending[0].1) {
            Some(at) => Some(at),
            None => find_in_pending(w, name, pending.drop_first()),
        }
    }
}

/// What a search in the state `m` comes to in the world `w`.
pub open spec fn walk_result(w: World, m: WalkModel) -> Option<LocationModel> {
    match m.found {
        Some(at) => Some(at),
        None => find_in_pending(w, m.name, m.pending),
    }
}

/// How many listings the directory `place` and all below it take.
pub open spec fn dir_work(w: World, place: PlaceModel, below: nat) -> nat
    decreases below, 0nat,
{
    match listing(w, place) {
        Some(list) if below > 0 => 1 + dirs_work(
            w,
            as_places(ordered_dirs(list)),
            (below - 1) as nat,
        ),
        _ => 1,
    }
}

/// How many listings all of `places` take.
pub open spec fn dirs_work(w: World, places: Seq<PlaceModel>, below: nat) -> nat
    decreases below, places.len(),
{
    if places.len() == 0 {
        0
    } else {
        dir_work(w, places[0], below) + dirs_work(w, places.drop_first(), below)
    }
}

/// How many listings all of `pending` take.
pub open spec fn pending_work(w: World, pending: Seq<(PlaceModel, nat)>) -> nat
    decreases pending.len(),
{
    if pending.len() == 0 {
        0
    } else {
        dir_work(w, pending[0].0, pending[0].1) + pending_work(w, pending.drop_first())
    }
}

/// How many listings a search in the state `m` asks for at most.
pub open spec fn walk_work(w: World, m: WalkModel) -> nat {
    if m.found is Some {
        0
    } else {
        pending_work(w, m.pending)
    }
}

// ---------------------------------------------------------------------------
// Laws
// ---------------------------------------------------------------------------
/// Searching two lists one after the other.
proof fn lemma_pending_concat(
    w: World,
    name: Seq<char>,
    a: Seq<(PlaceModel, nat)>,
    b: Seq<(PlaceModel, nat)>,
)
    ensures
        find_in_pending(w, name, a + b) == (match find_in_pending(w, name, a) {
            Some(at) => Some(at),
            None => find_in_pending(w, name, b),
        }),
        pending_work(w, a + b) == pending_work(w, a) + pending_work(w, b),
    decreases a.len(),
{
    if a.len() == 0 {
        assert(a + b =~= b);
    } else {
        assert((a + b).drop_first() =~= a.drop_first() + b);
        lemma_pending_concat(w, name, a.drop_first(), b);
    }
}

/// Searching places with the same number of levels below each.
proof fn lemma_pending_places(w: World, name: Seq<char>, places: Seq<PlaceModel>, below: nat)
    ensures
        find_in_pending(w, name, each_with(places, below)) == find_in_dirs(w, name, places, below),
        pending_work(w, each_with(places, below)) == dirs_work(w, places, below),
    decreases places.len(),
{
    if places.len() > 0 {
        assert(each_with(places, below).drop_first() =~= each_with(places.drop_first(), below));
        lemma_pending_places(w, name, places.drop_first(), below);
    }
}

/// What a search comes to in the end is what it stood for at the beginning: a
/// reply that is true of the world changes nothing about it. Each reply brings the
/// search closer to its end.
pub proof fn law_walk_step(w: World, m: WalkModel)
    requires
        protocol::answers_all(w),
        walk_request(m) is Some,
    ensures
        walk_result(w, walk_answered(m, w(walk_request(m)->0))) == walk_result(w, m),
        walk_work(w, walk_answered(m, w(walk_request(m)->0))) < walk_work(w, m),
{
    let request = walk_request(m)->0;
    let (place, below) = m.pending[0];
    let rest = m.pending.drop_first();
    assert(protocol::fits(request, w(request)));
    match listing(w, place) {
        None => {},
        Some(list) => match first_file(list, m.name) {
            Some(_) => {},
            None => {
                lemma_pending_concat(w, m.name, under(list, below), rest);
                if below > 0 {
                    lemma_pending_places(
                        w,
                        m.name,
                        as_places(ordered_dirs(list)),
                        (below - 1) as nat,
                    );
                }
            },
        },
    }
}

/// A search that asks for nothing more has come to its result.
pub proof fn law_walk_end(w: World, m: WalkModel)
    requires
        walk_request(m) is None,
    ensures
        m.found == walk_result(w, m),
{
}

/// The search of a prefix finds what the first of its places has.
pub proof fn law_prefix_start(w: World, script: u64, name: Seq<char>)
    ensures
        walk_result(w, search_start(script, name)) == find_in_dirs(
            w,
            name,
            search_places(script),
            (SEARCH_DEPTH - 1) as nat,
        ),
{
    lemma_pending_places(w, name, search_places(script), (SEARCH_DEPTH - 1) as nat);
}

/// A walk finds what its directory has to the given depth; a walk to depth zero
/// finds nothing.
pub proof fn law_walk_start(w: World, place: PlaceModel, name: Seq<char>, depth: nat)
    ensures
        walk_result(w, walk_start(place, name, depth)) == (if depth == 0 {
            None
        } else {
            find_in_dir(w, name, place, (depth - 1) as nat)
        }),
{
    if depth > 0 {
        let below = (depth - 1) as nat;
        let pending = walk_start(place, name, depth).pending;
        assert(pending =~= seq![(place, below)]);
        assert(pending[0] == (place, below));
        assert(pending.drop_first() =~= Seq::empty());
        assert(find_in_pending(w, name, pending.drop_first()) is None);
    }
}

/// The order of names is strict and total.
proof fn lemma_key_order(a: Seq<u8>, b: Seq<u8>, c: Seq<u8>)
    ensures
        !(key_less(a, b) && key_less(b, a)),
        !key_less(b, a) && !key_less(c, b) ==> !key_less(c, a),
        !key_less(a, b) && !key_less(b, a) ==> a == b,
    decreases a.len() + b.len() + c.len(),
{
    if a.len() > 0 && b.len() > 0 && c.len() > 0 {
        lemma_key_order(a.drop_first(), b.drop_first(), c.drop_first());
        if a[0] == b[0] && a.drop_first() == b.drop_first() {
            assert(a =~= seq![a[0]] + a.drop_first());
            assert(b =~= seq![b[0]] + b.drop_first());
        }
    } else if a.len() > 0 && b.len() > 0 {
        lemma_key_order(a.drop_first(), b.drop_first(), c);
        if a[0] == b[0] && a.drop_first() == b.drop_first() {
            assert(a =~= seq![a[0]] + a.drop_first());
            assert(b =~= seq![b[0]] + b.drop_first());
        }
    } else if a.len() == 0 && b.len() == 0 {
        assert(a =~= b);
    }
}

/// Whether no entry of `list` comes before an earlier one.
pub open spec fn is_ordered(list: Seq<EntryModel>) -> bool {
    forall|i: int, j: int|
        0 <= i < j < list.len() ==> !key_less(
            (#[trigger] list[j]).sort_key,
            (#[trigger] list[i]).sort_key,
        )
}

/// An ordered list stays ordered when an entry is put in, and holds one entry more.
proof fn lemma_insert_ordered(list: Seq<EntryModel>, e: EntryModel)
    requires
        is_ordered(list),
    ensures
        is_ordered(insert_ordered(list, e)),
        insert_ordered(list, e).to_multiset() == list.to_multiset().insert(e),
        forall|x: EntryModel| #[trigger] insert_ordered(list, e).contains(x) ==> x == e || list.contains(x),
    decreases list.len(),
{
    broadcast use vstd::seq_lib::group_to_multiset_ensures;

    let r = insert_ordered(list, e);
    if list.len() > 0 && key_less(e.sort_key, list.last().sort_key) {
        let init = list.drop_last();
        let last = list.last();
        lemma_insert_ordered(init, e);
        let inner = insert_ordered(init, e);
        assert(list =~= init.push(last));
        assert(r.to_multiset() =~= list.to_multiset().insert(e));
        assert forall|i: int, j: int| 0 <= i < j < r.len() implies !key_less(
            (#[trigger] r[j]).sort_key,
            (#[trigger] r[i]).sort_key,
        ) by {
            if j < inner.len() {
                assert(r[j] == inner[j] && r[i] == inner[i]);
            } else {
                assert(r[i] == inner[i]);
                assert(inner.contains(inner[i]));
                if inner[i] == e {
                    lemma_key_order(e.sort_key, last.sort_key, last.sort_key);
                } else {
                    let k = choose|k: int| 0 <= k < init.len() && init[k] == inner[i];
                    assert(list[k] == inner[i]);
                    assert(list[list.len() - 1] == last);
                }
            }
        }
        assert forall|x: EntryModel| #[trigger] r.contains(x) implies x == e || list.contains(x) by {
            let k = choose|k: int| 0 <= k < r.len() && r[k] == x;
            if k < inner.len() {
                assert(inner[k] == x);
                assert(inner.contains(x));
                if x != e {
                    let i = choose|i: int| 0 <= i < init.len() && init[i] == x;
                    assert(list[i] == x);
                }
            } else {
                assert(list[list.len() - 1] == x);
            }
        }
    } else {
        assert forall|i: int, j: int| 0 <= i < j < r.len() implies !key_less(
            (#[trigger] r[j]).sort_key,
            (#[trigger] r[i]).sort_key,
        ) by {
            if j < list.len() {
                assert(r[j] == list[j] && r[i] == list[i]);
            } else {
                assert(r[i] == list[i]);
                assert(r[j] == e);
                let last = list[list.len() - 1];
                if i < list.len() - 1 {
                    assert(!key_less(last.sort_key, list[i].sort_key));
                } else {
                    lemma_key_order(last.sort_key, last.sort_key, last.sort_key);
                }
                lemma_key_order(list[i].sort_key, last.sort_key, e.sort_key);
            }
        }
        assert forall|x: EntryModel| #[trigger] r.contains(x) implies x == e || list.contains(x) by {
            let k = choose|k: int| 0 <= k < r.len() && r[k] == x;
            if k < list.len() {
                assert(list[k] == x);
            }
        }
    }
}

/// Whether `e` is a directory.
pub open spec fn is_dir(e: EntryModel) -> bool {
    e.kind == EntryKind::Dir
}

/// The subdirectories are visited in the order of their names, each of them once:
/// what is ordered are just the directories of the listing.
pub proof fn law_ordered_dirs(list: Seq<EntryModel>)
    ensures
        is_ordered(ordered_dirs(list)),
        ordered_dirs(list).to_multiset() == list.filter(|e: EntryModel| is_dir(e)).to_multiset(),
    decreases list.len(),
{
    broadcast use vstd::seq_lib::group_to_multiset_ensures;

    reveal(Seq::filter);
    let pred = |e: EntryModel| is_dir(e);
    if list.len() > 0 {
        let init = list.drop_last();
        law_ordered_dirs(init);
        if list.last().kind == EntryKind::Dir {
            lemma_insert_ordered(ordered_dirs(init), list.last());
            assert(list.filter(pred) =~= init.filter(pred).push(list.last()));
        }
    } else {
        assert(ordered_dirs(list) =~= list.filter(pred));
    }
}

/// Whether all entries of `list` have different names.
pub open spec fn distinct_keys(list: Seq<EntryModel>) -> bool {
    forall|i: int, j: int|
        0 <= i < j < list.len() ==> (#[trigger] list[i]).sort_key != (#[trigger] list[j]).sort_key
}

/// Whether every entry of `list` comes before all the later ones.
spec fn is_strictly_ordered(list: Seq<EntryModel>) -> bool {
    forall|i: int, j: int|
        0 <= i < j < list.len() ==> key_less(
            (#[trigger] list[i]).sort_key,
            (#[trigger] list[j]).sort_key,
        )
}

/// What is picked is a file with the name, and none comes before it.
proof fn lemma_least_file(list: Seq<EntryModel>, name: Seq<char>)
    ensures
        match least_file(list, name) {
            Some(e) => list.contains(e) && is_named_file(e, name) && (forall|x: EntryModel| #[trigger]
                list.contains(x) && is_named_file(x, name) ==> !key_less(x.sort_key, e.sort_key)),
            None => forall|x: EntryModel| #[trigger] list.contains(x) ==> !is_named_file(x, name),
        },
    decreases list.len(),
{
    if list.len() > 0 {
        let init = list.drop_last();
        let last = list.last();
        lemma_least_file(init, name);
        assert(list[list.len() - 1] == last);
        assert forall|x: EntryModel| #[trigger] list.contains(x) implies x == last || init.contains(
            x,
        ) by {
            let k = choose|k: int| 0 <= k < list.len() && list[k] == x;
            if k < init.len() {
                assert(init[k] == x);
            }
        }
        if let Some(best) = least_file(init, name) {
            let k = choose|k: int| 0 <= k < init.len() && init[k] == best;
            assert(list[k] == best);
            assert forall|x: EntryModel| #[trigger]
                list.contains(x) && is_named_file(x, name) implies !key_less(
                x.sort_key,
                least_file(list, name)->0.sort_key,
            ) by {
                lemma_key_order(last.sort_key, best.sort_key, x.sort_key);
                lemma_key_order(best.sort_key, x.sort_key, last.sort_key);
                lemma_key_order(x.sort_key, last.sort_key, best.sort_key);
                lemma_key_order(last.sort_key, last.sort_key, last.sort_key);
            }
        } else {
            lemma_key_order(last.sort_key, last.sort_key, last.sort_key);
        }
    }
}

/// A strictly ordered list stays so when an entry with a new name is put in, which
/// then is in it.
proof fn lemma_insert_strictly(list: Seq<EntryModel>, e: EntryModel)
    requires
        is_strictly_ordered(list),
        forall|i: int| 0 <= i < list.len() ==> (#[trigger] list[i]).sort_key != e.sort_key,
    ensures
        is_strictly_ordered(insert_ordered(list, e)),
        forall|x: EntryModel| #[trigger]
            insert_ordered(list, e).contains(x) <==> x == e || list.contains(x),
    decreases list.len(),
{
    let r = insert_ordered(list, e);
    if list.len() > 0 && key_less(e.sort_key, list.last().sort_key) {
        let init = list.drop_last();
        let last = list.last();
        lemma_insert_strictly(init, e);
        let inner = insert_ordered(init, e);
        assert forall|i: int, j: int| 0 <= i < j < r.len() implies key_less(
            (#[trigger] r[i]).sort_key,
            (#[trigger] r[j]).sort_key,
        ) by {
            assert(r[i] == inner[i]);
            if j < inner.len() {
                assert(r[j] == inner[j]);
            } else {
                assert(inner.contains(inner[i]));
                if inner[i] != e {
                    let k = choose|k: int| 0 <= k < init.len() && init[k] == inner[i];
                    assert(list[k] == inner[i]);
                    assert(list[list.len() - 1] == last);
                }
            }
        }
        assert forall|x: EntryModel| #[trigger] r.contains(x) <==> x == e || list.contains(x) by {
            assert(inner.contains(x) <==> x == e || init.contains(x));
            if r.contains(x) {
                let k = choose|k: int| 0 <= k < r.len() && r[k] == x;
                if k < inner.len() {
                    assert(inner[k] == x);
                    if x != e {
                        let i = choose|i: int| 0 <= i < init.len() && init[i] == x;
                        assert(list[i] == x);
                    }
                } else {
                    assert(list[list.len() - 1] == x);
                }
            }
            if x == e || list.contains(x) {
                if x == last {
                    assert(r[r.len() - 1] == x);
                } else {
                    if x != e {
                        let i = choose|i: int| 0 <= i < list.len() && list[i] == x;
                        assert(init[i] == x);
                    }
                    let k = choose|k: int| 0 <= k < inner.len() && inner[k] == x;
                    assert(r[k] == x);
                }
            }
        }
    } else {
        assert forall|i: int, j: int| 0 <= i < j < r.len() implies key_less(
            (#[trigger] r[i]).sort_key,
            (#[trigger] r[j]).sort_key,
        ) by {
            assert(r[i] == list[i]);
            if j < list.len() {
                assert(r[j] == list[j]);
            } else {
                let last = list[list.len() - 1];
                lemma_key_order(last.sort_key, e.sort_key, e.sort_key);
                if i < list.len() - 1 {
                    lemma_key_transitive(list[i].sort_key, last.sort_key, e.sort_key);
                }
            }
        }
        assert forall|x: EntryModel| #[trigger] r.contains(x) <==> x == e || list.contains(x) by {
            if r.contains(x) {
                let k = choose|k: int| 0 <= k < r.len() && r[k] == x;
                if k < list.len() {
                    assert(list[k] == x);
                }
            }
            if x == e {
                assert(r[list.len() as int] == x);
            } else if list.contains(x) {
                let k = choose|k: int| 0 <= k < list.len() && list[k] == x;
                assert(r[k] == x);
            }
        }
    }
}

/// The order of names is transitive.
proof fn lemma_key_transitive(a: Seq<u8>, b: Seq<u8>, c: Seq<u8>)
    requires
        key_less(a, b),
        key_less(b, c),
    ensures
        key_less(a, c),
    decreases a.len(),
{
    if a.len() > 0 && a[0] == b[0] && b[0] == c[0] {
        lemma_key_transitive(a.drop_first(), b.drop_first(), c.drop_first());
    }
}

/// The directories of a listing in which all names differ are in strict order.
proof fn lemma_ordered_strictly(list: Seq<EntryModel>)
    requires
        distinct_keys(list),
    ensures
        is_strictly_ordered(ordered_dirs(list)),
        forall|x: EntryModel| #[trigger]
            ordered_dirs(list).contains(x) <==> list.contains(x) && is_dir(x),
    decreases list.len(),
{
    if list.len() > 0 {
        let init = list.drop_last();
        let last = list.last();
        let before = ordered_dirs(init);
        assert(distinct_keys(init)) by {
            assert forall|i: int, j: int| 0 <= i < j < init.len() implies (
            #[trigger] init[i]).sort_key != (#[trigger] init[j]).sort_key by {
                assert(list[i] == init[i] && list[j] == init[j]);
            }
        }
        lemma_ordered_strictly(init);
        assert forall|x: EntryModel| #[trigger] list.contains(x) <==> x == last || init.contains(x) by {
            if list.contains(x) {
                let k = choose|k: int| 0 <= k < list.len() && list[k] == x;
                if k < init.len() {
                    assert(init[k] == x);
                }
            }
            if x == last {
                assert(list[list.len() - 1] == x);
            } else if init.contains(x) {
                let k = choose|k: int| 0 <= k < init.len() && init[k] == x;
                assert(list[k] == x);
            }
        }
        if last.kind == EntryKind::Dir {
            assert forall|i: int| 0 <= i < before.len() implies (#[trigger] before[i]).sort_key
                != last.sort_key by {
                assert(before.contains(before[i]));
                let k = choose|k: int| 0 <= k < init.len() && init[k] == before[i];
                assert(list[k] == before[i]);
                assert(list[list.len() - 1] == last);
            }
            lemma_insert_strictly(before, last);
        }
        assert forall|x: EntryModel| #[trigger]
            ordered_dirs(list).contains(x) <==> list.contains(x) && is_dir(x) by {
            assert(before.contains(x) <==> init.contains(x) && is_dir(x));
            assert(list.contains(x) <==> x == last || init.contains(x));
        }
    }
}

/// Two strictly ordered lists of the same entries are the same.
proof fn lemma_strict_order_unique(a: Seq<EntryModel>, b: Seq<EntryModel>)
    requires
        is_strictly_ordered(a),
        is_strictly_ordered(b),
        forall|x: EntryModel| a.contains(x) <==> b.contains(x),
    ensures
        a == b,
    decreases a.len(),
{
    if a.len() == 0 {
        if b.len() > 0 {
            assert(b.contains(b[0]));
            assert(a.contains(b[0]));
        }
        assert(a =~= b);
    } else {
        let x = a.last();
        assert(a[a.len() - 1] == x);
        assert(a.contains(x));
        assert(b.contains(x));
        let y = b.last();
        assert(b[b.len() - 1] == y);
        assert(b.contains(y));
        assert(a.contains(y));
        let i = choose|i: int| 0 <= i < b.len() && b[i] == x;
        let j = choose|j: int| 0 <= j < a.len() && a[j] == y;
        lemma_key_order(x.sort_key, y.sort_key, y.sort_key);
        if i < b.len() - 1 {
            assert(key_less(b[i].sort_key, b[b.len() - 1].sort_key));
        }
        if j < a.len() - 1 {
            assert(key_less(a[j].sort_key, a[a.len() - 1].sort_key));
        }
        assert(x == y);
        let c = a.drop_last();
        let d = b.drop_last();
        assert(is_strictly_ordered(c)) by {
            assert forall|p: int, q: int| 0 <= p < q < c.len() implies key_less(
                (#[trigger] c[p]).sort_key,
                (#[trigger] c[q]).sort_key,
            ) by {
                assert(c[p] == a[p] && c[q] == a[q]);
            }
        }
        assert(is_strictly_ordered(d)) by {
            assert forall|p: int, q: int| 0 <= p < q < d.len() implies key_less(
                (#[trigger] d[p]).sort_key,
                (#[trigger] d[q]).sort_key,
            ) by {
                assert(d[p] == b[p] && d[q] == b[q]);
            }
        }
        lemma_key_order(x.sort_key, x.sort_key, x.sort_key);
        assert forall|z: EntryModel| c.contains(z) <==> d.contains(z) by {
            if c.contains(z) {
                let p = choose|p: int| 0 <= p < c.len() && c[p] == z;
                assert(a[p] == z);
                assert(a.contains(z));
                assert(key_less(a[p].sort_key, a[a.len() - 1].sort_key));
                let q = choose|q: int| 0 <= q < b.len() && b[q] == z;
                assert(d[q] == z);
            }
            if d.contains(z) {
                let p = choose|p: int| 0 <= p < d.len() && d[p] == z;
                assert(b[p] == z);
                assert(b.contains(z));
                assert(key_less(b[p].sort_key, b[b.len() - 1].sort_key));
                let q = choose|q: int| 0 <= q < a.len() && a[q] == z;
                assert(c[q] == z);
            }
        }
        lemma_strict_order_unique(c, d);
        assert(a =~= c.push(x));
        assert(b =~= d.push(x));
    }
}

/// Whether two listings hold the same entries, in whatever order, all with
/// different names.
pub open spec fn same_entries(a: Seq<EntryModel>, b: Seq<EntryModel>) -> bool {
    a.to_multiset() == b.to_multiset() && distinct_keys(a) && distinct_keys(b)
}

/// The order in which a directory is listed does not matter: neither for the file
/// that is picked, also where several have the name up to case, nor for the
/// subdirectories that are visited.
pub proof fn law_listing_order(a: Seq<EntryModel>, b: Seq<EntryModel>, name: Seq<char>)
    requires
        same_entries(a, b),
    ensures
        first_file(a, name) == first_file(b, name),
        ordered_dirs(a) == ordered_dirs(b),
{
    broadcast use vstd::seq_lib::group_to_multiset_ensures;

    assert forall|x: EntryModel| a.contains(x) <==> b.contains(x) by {
        assert(a.contains(x) <==> a.to_multiset().count(x) > 0);
        assert(b.contains(x) <==> b.to_multiset().count(x) > 0);
    }
    lemma_least_file(a, name);
    lemma_least_file(b, name);
    match (least_file(a, name), least_file(b, name)) {
        (Some(x), Some(y)) => {
            assert(b.contains(x) && a.contains(y));
            lemma_key_order(x.sort_key, y.sort_key, y.sort_key);
            let i = choose|i: int| 0 <= i < a.len() && a[i] == x;
            let j = choose|j: int| 0 <= j < a.len() && a[j] == y;
            assert(a[i].sort_key == a[j].sort_key);
        },
        (Some(x), None) => {
            assert(b.contains(x));
        },
        (None, Some(y)) => {
            assert(a.contains(y));
        },
        (None, None) => {},
    }
    lemma_ordered_strictly(a);
    lemma_ordered_strictly(b);
    assert forall|x: EntryModel| ordered_dirs(a).contains(x) <==> ordered_dirs(b).contains(x) by {
        assert(ordered_dirs(a).contains(x) <==> a.contains(x) && is_dir(x));
        assert(ordered_dirs(b).contains(x) <==> b.contains(x) && is_dir(x));
    }
    lemma_strict_order_unique(ordered_dirs(a), ordered_dirs(b));
}

/// Whether two worlds have the same directories, which they may list in different
/// orders.
pub open spec fn same_tree(w: World, v: World) -> bool {
    forall|place: PlaceModel|
        match (#[trigger] listing(w, place), listing(v, place)) {
            (Some(a), Some(b)) => same_entries(a, b),
            (a, b) => a is None && b is None,
        }
}

/// What a search finds depends on the directories alone, and not on the order in
/// which they are listed.
pub proof fn law_walk_deterministic(w: World, v: World, m: WalkModel)
    requires
        same_tree(w, v),
    ensures
        walk_result(w, m) == walk_result(v, m),
{
    if m.found is None {
        lemma_pending_deterministic(w, v, m.name, m.pending);
    }
}

/// [`law_walk_deterministic`] of what is still to be searched.
proof fn lemma_pending_deterministic(
    w: World,
    v: World,
    name: Seq<char>,
    pending: Seq<(PlaceModel, nat)>,
)
    requires
        same_tree(w, v),
    ensures
        find_in_pending(w, name, pending) == find_in_pending(v, name, pending),
    decreases pending.len(),
{
    if pending.len() > 0 {
        lemma_dir_deterministic(w, v, name, pending[0].0, pending[0].1);
        lemma_pending_deterministic(w, v, name, pending.drop_first());
    }
}

/// [`law_walk_deterministic`] of one directory.
proof fn lemma_dir_deterministic(
    w: World,
    v: World,
    name: Seq<char>,
    place: PlaceModel,
    below: nat,
)
    requires
        same_tree(w, v),
    ensures
        find_in_dir(w, name, place, below) == find_in_dir(v, name, place, below),
    decreases below, 0nat,
{
    if let (Some(a), Some(b)) = (listing(w, place), listing(v, place)) {
        law_listing_order(a, b, name);
        if below > 0 {
            lemma_dirs_deterministic(
                w,
                v,
                name,
                as_places(ordered_dirs(a)),
                (below - 1) as nat,
            );
        }
    }
}

/// [`law_walk_deterministic`] of several directories.
proof fn lemma_dirs_deterministic(
    w: World,
    v: World,
    name: Seq<char>,
    places: Seq<PlaceModel>,
    below: nat,
)
    requires
        same_tree(w, v),
    ensures
        find_in_dirs(w, name, places, below) == find_in_dirs(v, name, places, below),
    decreases below, places.len(),
{
    if places.len() > 0 {
        lemma_dir_deterministic(w, v, name, places[0], below);
        lemma_dirs_deterministic(w, v, name, places.drop_first(), below);
    }
}

} // verus!
