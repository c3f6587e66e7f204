//! Favorites.

use vstd::prelude::*;
use crate::ident::{fresh_id, is_random_uuid};
use crate::text::same_text;

verus! {

#[derive(Debug)]
pub struct Favorite {
    pub id: String,
    pub url: String,
    pub kind: String,
    pub name: String,
    pub added_at: u64,
}

#[verifier::ext_equal]
pub struct FavoriteView {
    pub id: Seq<char>,
    pub url: Seq<char>,
    pub kind: Seq<char>,
    pub name: Seq<char>,
    pub added_at: u64,
}

impl View for Favorite {
    type V = FavoriteView;

    open spec fn view(&self) -> FavoriteView {
        FavoriteView {
            id: self.id@,
            url: self.url@,
            kind: self.kind@,
            name: self.name@,
            added_at: self.added_at,
        }
    }
}

impl Clone for Favorite {
    fn clone(&self) -> (r: Self)
        ensures
            r@ == self@,
    {
        Favorite {
            id: self.id.clone(),
            url: self.url.clone(),
            kind: self.kind.clone(),
            name: self.name.clone(),
            added_at: self.added_at,
        }
    }
}

/// What a client says of a new favorite.
#[derive(Debug)]
pub struct FavoriteRequest {
    pub url: String,
    pub kind: String,
    pub name: String,
}

/// The favorite that `request` asks for, with the identifier `id`, added at the time `now`.
pub open spec fn favorite_of(request: FavoriteRequest, id: Seq<char>, now: u64) -> FavoriteView {
    FavoriteView {
        id,
        url: request.url@,
        kind: request.kind@,
        name: request.name@,
        added_at: now,
    }
}

pub open spec fn favorite_views(s: Seq<Favorite>) -> Seq<FavoriteView> {
    s.map_values(|f: Favorite| f@)
}

/// `favorites` without those with the identifier `id`; the others stay in their order.
pub open spec fn without(favorites: Seq<FavoriteView>, id: Seq<char>) -> Seq<FavoriteView> {
    favorites.filter(|f: FavoriteView| f.id != id)
}

/// The favorites, in the order in which they were added.
pub struct Favorites {
    items: Vec<Favorite>,
}

impl View for Favorites {
    type V = Seq<FavoriteView>;

    closed spec fn view(&self) -> Seq<FavoriteView> {
        favorite_views(self.items@)
    }
}

impl Favorites {
    /// The favorites of `items`.
    pub fn from_items(items: Vec<Favorite>) -> (r: Self)
        ensures
            r@ == favorite_views(items@),
    {
        Favorites { items }
    }

    /// The favorites, in the order in which they were added.
    pub fn items(&self) -> (r: &Vec<Favorite>)
        ensures
            favorite_views(r@) == self@,
    {
        &self.items
    }

    /// Adds the favorite that `request` asks for, with the identifier `id`, and
    /// hands back a copy.
    pub fn add_as(&mut self, request: FavoriteRequest, id: String, now: u64) -> (r: Favorite)
        ensures
            r@ == favorite_of(request, id@, now),
            final(self)@ == old(self)@.push(r@),
    {
        let ghost before = self@;
        let fav = Favorite {
            id,
            url: request.url,
            kind: request.kind,
            name: request.name,
            added_at: now,
        };
        self.items.push(fav.clone());
        assert(self@ =~= before.push(fav@));
        fav
    }

    /// Adds the favorite that `request` asks for, with a fresh identifier, and hands
    /// back a copy. Which identifier it gets rests on chance.
    pub fn add(&mut self, request: FavoriteRequest, now: u64) -> (r: Favorite)
        ensures
            is_random_uuid(r@.id),
            r@ == favorite_of(request, r@.id, now),
            final(self)@ == old(self)@.push(r@),
    {
        self.add_as(request, fresh_id(), now)
    }

    /// Removes the favorites with the identifier `id`; says whether there were any.
    pub fn remove(&mut self, id: &str) -> (r: bool)
        ensures
            final(self)@ == without(old(self)@, id@),
            r <==> exists|i: int| 0 <= i < old(self)@.len() && (#[trigger] old(self)@[i]).id == id@,
    {
        let ghost all = self@;
        let ghost other = |f: FavoriteView| f.id != id@;
        let mut rest: Vec<Favorite> = Vec::new();
        let n: usize = self.items.len();
        let mut found: bool = false;
        assert(all.take(0).filter(other) =~= Seq::empty()) by {
            reveal(Seq::filter);
        }
        for i in 0..n
            invariant
                n == self.items@.len(),
                all == self@,
                other == |f: FavoriteView| f.id != id@,
                favorite_views(rest@) =~= all.take(i as int).filter(other),
                found <==> exists|j: int| 0 <= j < i && (#[trigger] all[j]).id == id@,
        {
            let f = &self.items[i];
            assert(all[i as int] == f@);
            assert(all.take(i + 1) =~= all.take(i as int).push(f@));
            let ghost rest0 = rest@;
            proof {
                all.take(i as int).lemma_filter_push(f@, other);
            }
            if same_text(f.id.as_str(), id) {
                found = true;
            } else {
                rest.push(f.clone());
                assert(favorite_views(rest@) =~= favorite_views(rest0).push(f@));
            }
        }
        assert(all.take(n as int) =~= all);
        self.items = rest;
        found
    }
}

proof fn lemma_without_absent(favorites: Seq<FavoriteView>, id: Seq<char>)
    requires
        forall|i: int| 0 <= i < favorites.len() ==> (#[trigger] favorites[i]).id != id,
    ensures
        without(favorites, id) == favorites,
    decreases favorites.len(),
{
    reveal(Seq::filter);
    if favorites.len() > 0 {
        lemma_without_absent(favorites.drop_last(), id);
        assert(favorites.drop_last().push(favorites.last()) =~= favorites);
    }
}

/// Removing a favorite that was just added, under an identifier of its own,
/// gives back what was there before.
pub proof fn law_remove_undoes_add(favorites: Seq<FavoriteView>, added: FavoriteView)
    requires
        forall|i: int| 0 <= i < favorites.len() ==> (#[trigger] favorites[i]).id != added.id,
    ensures
        without(favorites.push(added), added.id) == favorites,
{
    favorites.lemma_filter_push(added, |f: FavoriteView| f.id != added.id);
    lemma_without_absent(favorites, added.id);
}

/// After a removal none is left with the identifier, so that a second removal
/// finds and changes nothing.
pub proof fn law_removed_is_gone(favorites: Seq<FavoriteView>, id: Seq<char>)
    ensures
        forall|i: int|
            0 <= i < without(favorites, id).len() ==> (#[trigger] without(favorites, id)[i]).id
                != id,
        without(without(favorites, id), id) == without(favorites, id),
    decreases favorites.len(),
{
    reveal(Seq::filter);
    if favorites.len() > 0 {
        law_removed_is_gone(favorites.drop_last(), id);
    }
    lemma_without_absent(without(favorites, id), id);
}

/// Removing a favorite keeps the others: every other identifier is still there as before.
pub proof fn law_remove_keeps_others(favorites: Seq<FavoriteView>, id: Seq<char>, other: Seq<char>)
    requires
        other != id,
    ensures
        without(favorites, id).filter(|f: FavoriteView| f.id == other) == favorites.filter(
            |f: FavoriteView| f.id == other,
        ),
    decreases favorites.len(),
{
    reveal(Seq::filter);
    if favorites.len() > 0 {
        let rest = favorites.drop_last();
        law_remove_keeps_others(rest, id, other);
        let w = without(rest, id);
        assert(w.push(favorites.last()).drop_last() =~= w);
    }
}

/// What is left after a removal goes by each favorite alone: it stays, in its
/// place, exactly where its identifier is another.
pub proof fn law_removal_goes_one_by_one(
    favorites: Seq<FavoriteView>,
    last: FavoriteView,
    id: Seq<char>,
)
    ensures
        without(Seq::empty(), id) == Seq::<FavoriteView>::empty(),
        last.id == id ==> without(favorites.push(last), id) == without(favorites, id),
        last.id != id ==> without(favorites.push(last), id) == without(favorites, id).push(last),
{
    favorites.lemma_filter_push(last, |f: FavoriteView| f.id != id);
    reveal(Seq::filter);
    assert(without(Seq::empty(), id) =~= Seq::<FavoriteView>::empty());
}

/// A favorite is what was asked for, under its identifier, with the time it was added at.
pub proof fn law_favorite(request: FavoriteRequest, id: Seq<char>, now: u64)
    ensures
        favorite_of(request, id, now).id == id,
        favorite_of(request, id, now).url == request.url@,
        favorite_of(request, id, now).kind == request.kind@,
        favorite_of(request, id, now).name == request.name@,
        favorite_of(request, id, now).added_at == now,
{
}

/// The views of favorites are those of each, one for one and in their order.
pub proof fn law_favorite_views(favorites: Seq<Favorite>, i: int)
    requires
        0 <= i < favorites.len(),
    ensures
        favorite_views(favorites).len() == favorites.len(),
        favorite_views(favorites)[i] == favorites[i]@,
{
}

} // verus!
