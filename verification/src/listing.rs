//! How a candidate list is laid out.
//!
//! The entries of a candidate list stand in a sequence whose names strictly
//! ascend. That makes a name the key to at most one entry, lets an entry be
//! found by bisection, and leaves one place for a new entry to go.

use vstd::prelude::*;

use crate::candidates::{is_candidate, AppInfo, AppInfoView};
use crate::name_order::{
    compare_names,
    lemma_name_order_is_strict_and_total,
    name_before,
    NameOrder,
};

verus! {

/// Whether `listing` is laid out as a candidate list is: every entry is a
/// candidate, and the names strictly ascend.
pub open spec fn well_ordered(listing: Seq<AppInfoView>) -> bool {
    &&& forall|i: int| 0 <= i < listing.len() ==> is_candidate(#[trigger] listing[i])
    &&& forall|i: int, j: int|
        0 <= i < j < listing.len() ==> name_before(
            (#[trigger] listing[i]).name->0,
            (#[trigger] listing[j]).name->0,
        )
}

/// Whether entry `i` of `listing` goes by `name`.
pub open spec fn listed_at(listing: Seq<AppInfoView>, name: Seq<char>, i: int) -> bool {
    0 <= i < listing.len() && listing[i].name == Some(name)
}

/// The entries of `listing` by name.
pub open spec fn listing_map(listing: Seq<AppInfoView>) -> Map<Seq<char>, AppInfoView> {
    Map::new(
        |name: Seq<char>| exists|i: int| listed_at(listing, name, i),
        |name: Seq<char>| listing[choose|i: int| listed_at(listing, name, i)],
    )
}

/// The names of `listing`, in its order.
pub open spec fn names_of(listing: Seq<AppInfoView>) -> Seq<Seq<char>> {
    Seq::new(listing.len(), |i: int| listing[i].name->0)
}

/// In a well-ordered listing no two entries share a name.
pub proof fn lemma_one_entry_per_name(listing: Seq<AppInfoView>, i: int, j: int)
    requires
        well_ordered(listing),
        0 <= i < listing.len(),
        0 <= j < listing.len(),
        listing[i].name == listing[j].name,
    ensures
        i == j,
{
    let a = listing[i].name->0;
    lemma_name_order_is_strict_and_total(a, a, a);
    if i < j {
        assert(name_before(listing[i].name->0, listing[j].name->0));
    } else if j < i {
        assert(name_before(listing[j].name->0, listing[i].name->0));
    }
}

/// Every entry of a well-ordered listing is found under its own name.
pub proof fn lemma_listing_lookup(listing: Seq<AppInfoView>, i: int)
    requires
        well_ordered(listing),
        0 <= i < listing.len(),
    ensures
        listing_map(listing).contains_key(listing[i].name->0),
        listing_map(listing)[listing[i].name->0] == listing[i],
{
    let name = listing[i].name->0;
    assert(listed_at(listing, name, i));
    let k = choose|k: int| listed_at(listing, name, k);
    lemma_one_entry_per_name(listing, i, k);
}

/// A well-ordered listing holds each of its names once, and its names are
/// the names under which its entries are found.
pub proof fn lemma_listed_names_are_distinct(listing: Seq<AppInfoView>)
    requires
        well_ordered(listing),
    ensures
        names_of(listing).no_duplicates(),
        names_of(listing).to_set() == listing_map(listing).dom(),
{
    let names = names_of(listing);
    assert forall|i: int, j: int| 0 <= i < names.len() && 0 <= j < names.len() && i != j implies names[i]
        != names[j] by {
        assert(is_candidate(listing[i]) && is_candidate(listing[j]));
        if names[i] == names[j] {
            lemma_one_entry_per_name(listing, i, j);
        }
    }
    assert forall|n: Seq<char>| #[trigger] names.to_set().contains(n) implies listing_map(
        listing,
    ).dom().contains(n) by {
        let i = choose|i: int| 0 <= i < names.len() && names[i] == n;
        assert(is_candidate(listing[i]));
        assert(listed_at(listing, n, i));
    }
    assert forall|n: Seq<char>| #[trigger]
        listing_map(listing).dom().contains(n) implies names.to_set().contains(n) by {
        let i = choose|i: int| listed_at(listing, n, i);
        assert(names[i] == n);
    }
    assert(names.to_set() =~= listing_map(listing).dom());
}

/// Without its last entry, a well-ordered listing is still well ordered
/// and holds what it held before, but for the last entry's name.
proof fn lemma_listing_without_last(listing: Seq<AppInfoView>)
    requires
        well_ordered(listing),
        listing.len() > 0,
    ensures
        well_ordered(listing.drop_last()),
        listing_map(listing.drop_last()) == listing_map(listing).remove(listing.last().name->0),
{
    let front = listing.drop_last();
    let last = listing.len() - 1;
    let name = listing.last().name->0;
    assert forall|i: int| 0 <= i < front.len() implies is_candidate(#[trigger] front[i]) by {
        assert(is_candidate(listing[i]));
    }
    assert forall|i: int, j: int| 0 <= i < j < front.len() implies name_before(
        (#[trigger] front[i]).name->0,
        (#[trigger] front[j]).name->0,
    ) by {
        assert(name_before(listing[i].name->0, listing[j].name->0));
    }
    let wanted = listing_map(listing).remove(name);
    assert forall|n: Seq<char>| #[trigger]
        listing_map(front).dom().contains(n) implies wanted.dom().contains(n) && listing_map(
        front,
    )[n] == wanted[n] by {
        let i = choose|i: int| listed_at(front, n, i);
        lemma_listing_lookup(front, i);
        assert(listed_at(listing, n, i));
        lemma_listing_lookup(listing, i);
        if n == name {
            lemma_one_entry_per_name(listing, i, last);
        }
    }
    assert forall|n: Seq<char>| #[trigger]
        wanted.dom().contains(n) implies listing_map(front).dom().contains(n) by {
        let i = choose|i: int| listed_at(listing, n, i);
        assert(listed_at(front, n, i));
    }
    assert(listing_map(front) =~= wanted);
}

/// What is on offer decides how it is listed: two well-ordered listings
/// that hold the same entries under the same names are one listing.
pub proof fn lemma_listing_is_determined(a: Seq<AppInfoView>, b: Seq<AppInfoView>)
    requires
        well_ordered(a),
        well_ordered(b),
        listing_map(a) == listing_map(b),
    ensures
        a == b,
    decreases a.len(),
{
    if a.len() == 0 {
        if b.len() > 0 {
            lemma_listing_lookup(b, 0);
            assert(listing_map(a).dom().contains(b[0].name->0));
            let i = choose|i: int| listed_at(a, b[0].name->0, i);
        }
        assert(a =~= b);
    } else {
        let p = a.len() - 1;
        let name = a[p].name->0;
        lemma_listing_lookup(a, p);
        assert(listing_map(b).dom().contains(name));
        let j = choose|j: int| listed_at(b, name, j);
        let q = b.len() - 1;
        let other = b[q].name->0;
        lemma_listing_lookup(b, q);
        assert(listing_map(a).dom().contains(other));
        let i = choose|i: int| listed_at(a, other, i);
        // a[i] and b[q] share a name, as do a[p] and b[j]; both listings
        // ascend, so neither name can come before the other.
        lemma_name_order_is_strict_and_total(name, other, name);
        if i < p {
            assert(name_before(a[i].name->0, a[p].name->0));
        }
        if j < q {
            assert(name_before(b[j].name->0, b[q].name->0));
        }
        assert(name == other);
        lemma_one_entry_per_name(b, j, q);
        lemma_listing_without_last(a);
        lemma_listing_without_last(b);
        lemma_listing_is_determined(a.drop_last(), b.drop_last());
        assert(a =~= a.drop_last().push(a[p]));
        assert(b =~= b.drop_last().push(b[q]));
    }
}

/// Whether `at` is where `name` belongs in `listing`: every entry before it
/// is listed before `name`, and `name` before every entry from `at` on.
pub open spec fn belongs_at(listing: Seq<AppInfoView>, name: Seq<char>, at: int) -> bool {
    &&& 0 <= at <= listing.len()
    &&& forall|j: int| 0 <= j < at ==> name_before((#[trigger] listing[j]).name->0, name)
    &&& forall|j: int| at <= j < listing.len() ==> name_before(name, (#[trigger] listing[j]).name->0)
}

/// A name that belongs somewhere in a listing is not in it.
pub proof fn lemma_belonging_name_is_absent(listing: Seq<AppInfoView>, name: Seq<char>, at: int)
    requires
        belongs_at(listing, name, at),
    ensures
        !listing_map(listing).contains_key(name),
{
    if listing_map(listing).contains_key(name) {
        let i = choose|i: int| listed_at(listing, name, i);
        lemma_name_order_is_strict_and_total(name, name, name);
        if i < at {
            assert(name_before(listing[i].name->0, name));
        } else {
            assert(name_before(name, listing[i].name->0));
        }
    }
}

/// Putting a candidate in the place of the entry that has its name keeps
/// the listing in order, and changes what is found under that name only.
proof fn lemma_replace_entry(listing: Seq<AppInfoView>, at: int, entry: AppInfoView)
    requires
        well_ordered(listing),
        is_candidate(entry),
        listed_at(listing, entry.name->0, at),
    ensures
        well_ordered(listing.update(at, entry)),
        listing_map(listing.update(at, entry)) == listing_map(listing).insert(
            entry.name->0,
            entry,
        ),
{
    let name = entry.name->0;
    let after = listing.update(at, entry);
    assert forall|i: int| 0 <= i < after.len() implies (#[trigger] after[i]).name
        == listing[i].name && is_candidate(after[i]) by {
        assert(is_candidate(listing[i]));
    }
    assert forall|i: int, j: int| 0 <= i < j < after.len() implies name_before(
        (#[trigger] after[i]).name->0,
        (#[trigger] after[j]).name->0,
    ) by {
        assert(name_before(listing[i].name->0, listing[j].name->0));
    }
    let wanted = listing_map(listing).insert(name, entry);
    assert forall|n: Seq<char>| #[trigger]
        listing_map(after).dom().contains(n) implies wanted.dom().contains(n) && listing_map(
        after,
    )[n] == wanted[n] by {
        let i = choose|i: int| listed_at(after, n, i);
        lemma_listing_lookup(after, i);
        if i != at {
            assert(listed_at(listing, n, i));
            lemma_listing_lookup(listing, i);
            if n == name {
                lemma_one_entry_per_name(listing, i, at);
            }
        }
    }
    assert forall|n: Seq<char>| #[trigger]
        wanted.dom().contains(n) implies listing_map(after).dom().contains(n) by {
        if n == name {
            assert(listed_at(after, n, at));
        } else {
            let i = choose|i: int| listed_at(listing, n, i);
            assert(listed_at(after, n, i));
        }
    }
    assert(listing_map(after) =~= wanted);
}

/// Putting a candidate where its name belongs keeps the listing in order,
/// and adds it under its name to what is found there.
proof fn lemma_insert_entry(listing: Seq<AppInfoView>, at: int, entry: AppInfoView)
    requires
        well_ordered(listing),
        is_candidate(entry),
        belongs_at(listing, entry.name->0, at),
    ensures
        well_ordered(listing.insert(at, entry)),
        listing_map(listing.insert(at, entry)) == listing_map(listing).insert(
            entry.name->0,
            entry,
        ),
{
    let name = entry.name->0;
    let after = listing.insert(at, entry);
    listing.insert_ensures(at, entry);
    // Where entry `i` of the new listing stood in the old one.
    let origin = |i: int|
        if i < at {
            i
        } else {
            i - 1
        };
    assert forall|i: int| 0 <= i < after.len() && i != at implies (#[trigger] after[i])
        == listing[origin(i)] by {
        if i > at {
            assert(after[(i - 1) + 1] == listing[i - 1]);
        }
    }
    assert forall|i: int| 0 <= i < after.len() implies is_candidate(#[trigger] after[i]) by {
        if i != at {
            assert(is_candidate(listing[origin(i)]));
        }
    }
    assert forall|i: int, j: int| 0 <= i < j < after.len() implies name_before(
        (#[trigger] after[i]).name->0,
        (#[trigger] after[j]).name->0,
    ) by {
        if i == at {
            assert(name_before(name, listing[origin(j)].name->0));
        } else if j == at {
            assert(name_before(listing[origin(i)].name->0, name));
        } else {
            assert(name_before(listing[origin(i)].name->0, listing[origin(j)].name->0));
        }
    }
    lemma_belonging_name_is_absent(listing, name, at);
    let wanted = listing_map(listing).insert(name, entry);
    assert forall|n: Seq<char>| #[trigger]
        listing_map(after).dom().contains(n) implies wanted.dom().contains(n) && listing_map(
        after,
    )[n] == wanted[n] by {
        let i = choose|i: int| listed_at(after, n, i);
        lemma_listing_lookup(after, i);
        if i != at {
            assert(listed_at(listing, n, origin(i)));
            lemma_listing_lookup(listing, origin(i));
        }
    }
    assert forall|n: Seq<char>| #[trigger]
        wanted.dom().contains(n) implies listing_map(after).dom().contains(n) by {
        if n == name {
            assert(listed_at(after, n, at));
        } else {
            let i = choose|i: int| listed_at(listing, n, i);
            if i < at {
                assert(listed_at(after, n, i));
            } else {
                assert(after[i + 1] == listing[i]);
                assert(listed_at(after, n, i + 1));
            }
        }
    }
    assert(listing_map(after) =~= wanted);
}

/// The name that the candidate `app` is shown under.
pub(crate) fn shown_name(app: &AppInfo) -> (name: &String)
    requires
        app@.name is Some,
    ensures
        name@ == app@.name->0,
{
    app.name.as_ref().unwrap()
}

/// Finds `name` among `entries` by bisection: the index of its entry and
/// `true`, or the index where it belongs and `false`.
pub(crate) fn position_of(entries: &Vec<AppInfo>, name: &str) -> (found: (usize, bool))
    requires
        well_ordered(entries.deep_view()),
    ensures
        found.1 ==> listed_at(entries.deep_view(), name@, found.0 as int),
        !found.1 ==> belongs_at(entries.deep_view(), name@, found.0 as int),
{
    let ghost listing = entries.deep_view();
    let mut low: usize = 0;
    let mut high: usize = entries.len();
    while low < high
        invariant
            listing == entries.deep_view(),
            well_ordered(listing),
            low <= high <= entries.len(),
            forall|j: int| 0 <= j < low ==> name_before((#[trigger] listing[j]).name->0, name@),
            forall|j: int|
                high <= j < listing.len() ==> name_before(name@, (#[trigger] listing[j]).name->0),
        decreases high - low,
    {
        let mid = low + (high - low) / 2;
        let ghost pivot = listing[mid as int].name->0;
        proof {
            lemma_name_order_is_strict_and_total(pivot, name@, pivot);
        }
        match compare_names(shown_name(&entries[mid]).as_str(), name) {
            NameOrder::Same => {
                return (mid, true);
            },
            NameOrder::Before => {
                assert forall|j: int| 0 <= j < mid + 1 implies name_before(
                    (#[trigger] listing[j]).name->0,
                    name@,
                ) by {
                    if j < mid {
                        lemma_name_order_is_strict_and_total(listing[j].name->0, pivot, name@);
                    }
                }
                low = mid + 1;
            },
            NameOrder::After => {
                assert forall|j: int| mid <= j < listing.len() implies name_before(
                    name@,
                    (#[trigger] listing[j]).name->0,
                ) by {
                    if mid < j {
                        lemma_name_order_is_strict_and_total(name@, pivot, listing[j].name->0);
                    }
                }
                high = mid;
            },
        }
    }
    (low, false)
}

/// Lists the candidate `app` among `entries`: in the place of the entry
/// that has its name, or else where its name belongs.
pub(crate) fn insert_candidate(entries: &mut Vec<AppInfo>, app: AppInfo)
    requires
        well_ordered(old(entries).deep_view()),
        is_candidate(app@),
    ensures
        well_ordered(final(entries).deep_view()),
        listing_map(final(entries).deep_view()) == listing_map(old(entries).deep_view()).insert(
            app@.name->0,
            app@,
        ),
{
    let ghost before = entries.deep_view();
    let ghost entry = app@;
    let (at, found) = position_of(entries, shown_name(&app).as_str());
    if found {
        entries[at] = app;
        proof {
            assert(entries.deep_view() =~= before.update(at as int, entry));
            lemma_replace_entry(before, at as int, entry);
        }
    } else {
        entries.insert(at, app);
        proof {
            before.insert_ensures(at as int, entry);
            assert(entries.deep_view() =~= before.insert(at as int, entry)) by {
                assert(entries@.len() == before.len() + 1);
                assert forall|i: int| 0 <= i < entries@.len() implies entries.deep_view()[i]
                    == before.insert(at as int, entry)[i] by {
                    if i > at {
                        assert(before.insert(at as int, entry)[(i - 1) + 1] == before[i - 1]);
                    }
                }
            }
            lemma_insert_entry(before, at as int, entry);
        }
    }
}

} // verus!
