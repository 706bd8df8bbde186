//! What the cache makes of the lists a backend hands back: the keys of a scan,
//! the values of a bulk fetch, the members of the unknown-set.

use vstd::prelude::*;
use crate::backend::texts;
use crate::codec::{decode_value, read_value, DecodeError, Generation, OptionalPlayerInfo, RawValue};
use crate::ident::{uuid_parse, PlayerId};
use crate::keys::{key_id, parse_profile_key};
use crate::tiers::{infos_view, PlayerInfo, PlayerInfoView};

verus! {

/// The keys of a page that are to be fetched: the ones that lead to a player
/// and were not met before, neither in `seen` nor earlier in the page. Each
/// stands once, in the order of the page.
pub open spec fn fresh_keys(
    generation: Generation,
    seen: Seq<Seq<char>>,
    page: Seq<Seq<char>>,
) -> Seq<Seq<char>>
    decreases page.len(),
{
    if page.len() == 0 {
        Seq::empty()
    } else {
        let before = fresh_keys(generation, seen, page.drop_last());
        let key = page.last();
        if key_id(generation, key) is Some && !seen.contains(key) && !before.contains(key) {
            before.push(key)
        } else {
            before
        }
    }
}

/// The keys of a page that lead to no player, as often as they were reported.
pub open spec fn ill_keyed(generation: Generation, keys: Seq<Seq<char>>) -> Seq<Seq<char>>
    decreases keys.len(),
{
    if keys.len() == 0 {
        Seq::empty()
    } else {
        let before = ill_keyed(generation, keys.drop_last());
        if key_id(generation, keys.last()) is None {
            before.push(keys.last())
        } else {
            before
        }
    }
}

/// The players that a list of keys leads to, key by key.
pub open spec fn ids_of(generation: Generation, keys: Seq<Seq<char>>) -> Seq<PlayerId> {
    Seq::new(keys.len(), |i: int| key_id(generation, keys[i])->0)
}

/// The profiles among fetched values of the current generation, in order; or
/// the position of the first value that cannot be read.
pub open spec fn present_profiles(values: Seq<RawValue>) -> Result<Seq<PlayerInfoView>, int>
    decreases values.len(),
{
    if values.len() == 0 {
        Ok(Seq::empty())
    } else {
        match present_profiles(values.drop_last()) {
            Err(i) => Err(i),
            Ok(before) => match read_value(Generation::Current, values.last()) {
                Err(_) => Err(values.len() - 1),
                Ok(Some(Some(p))) => Ok(before.push(p)),
                Ok(_) => Ok(before),
            },
        }
    }
}

/// The players that the members of the unknown-set name, in order.
pub open spec fn member_ids(members: Seq<Seq<char>>) -> Seq<PlayerId>
    decreases members.len(),
{
    if members.len() == 0 {
        Seq::empty()
    } else {
        let before = member_ids(members.drop_last());
        match uuid_parse(members.last()) {
            Some(bits) => before.push(PlayerId(bits)),
            None => before,
        }
    }
}

/// The members that name no player, in order.
pub open spec fn unreadable_members(members: Seq<Seq<char>>) -> Seq<Seq<char>>
    decreases members.len(),
{
    if members.len() == 0 {
        Seq::empty()
    } else {
        let before = unreadable_members(members.drop_last());
        if uuid_parse(members.last()) is None {
            before.push(members.last())
        } else {
            before
        }
    }
}

/// Whether what is in one of two lists is not in the other.
pub open spec fn apart(a: Seq<Seq<char>>, b: Seq<Seq<char>>) -> bool {
    forall|k: Seq<char>| !(#[trigger] a.contains(k) && b.contains(k))
}

/// The keys to be fetched from a page are exactly the keys of the page that
/// lead to a player and were not seen before; none stands twice.
pub proof fn lemma_fresh_keys(generation: Generation, seen: Seq<Seq<char>>, page: Seq<Seq<char>>)
    ensures
        fresh_keys(generation, seen, page).no_duplicates(),
        forall|k: Seq<char>| #[trigger]
            fresh_keys(generation, seen, page).contains(k) <==> page.contains(k) && key_id(
                generation,
                k,
            ) is Some && !seen.contains(k),
    decreases page.len(),
{
    let kept = fresh_keys(generation, seen, page);
    if page.len() == 0 {
    } else {
        let before = fresh_keys(generation, seen, page.drop_last());
        let key = page.last();
        lemma_fresh_keys(generation, seen, page.drop_last());
        assert forall|k: Seq<char>| #[trigger]
            kept.contains(k) <==> page.contains(k) && key_id(generation, k) is Some
                && !seen.contains(k) by {
            if page.contains(k) {
                let i = choose|i: int| 0 <= i < page.len() && page[i] == k;
                if i < page.len() - 1 {
                    assert(page.drop_last()[i] == k);
                }
            }
            if page.drop_last().contains(k) {
                let i = choose|i: int| 0 <= i < page.drop_last().len() && page.drop_last()[i] == k;
                assert(page[i] == k);
            }
            if before.contains(k) {
                let i = choose|i: int| 0 <= i < before.len() && before[i] == k;
                if kept.len() > before.len() {
                    assert(kept[i] == k);
                }
            }
            if kept.contains(k) && !before.contains(k) {
                let i = choose|i: int| 0 <= i < kept.len() && kept[i] == k;
                if i < before.len() {
                    assert(before[i] == k);
                }
                assert(k == key);
                assert(page[page.len() - 1] == k);
            }
            if k == key && key_id(generation, k) is Some && !seen.contains(k) && !before.contains(
                k,
            ) {
                assert(kept[kept.len() - 1] == k);
            }
        }
        if kept.len() > before.len() {
            assert forall|i: int, j: int| 0 <= i < kept.len() && 0 <= j < kept.len() && i != j implies kept[i] != kept[j] by {
                if i < before.len() && j < before.len() {
                    assert(before[i] != before[j]);
                } else if i < before.len() {
                    assert(before.contains(before[i]));
                } else {
                    assert(before.contains(before[j]));
                }
            }
        }
    }
}

/// Two lists without repetition that share nothing make one list without
/// repetition, which holds what either holds.
pub proof fn lemma_joined(a: Seq<Seq<char>>, b: Seq<Seq<char>>)
    ensures
        forall|k: Seq<char>| #[trigger] (a + b).contains(k) <==> a.contains(k) || b.contains(k),
        a.no_duplicates() && b.no_duplicates() && apart(a, b) ==> (a + b).no_duplicates(),
{
    let all = a + b;
    assert forall|k: Seq<char>| #[trigger] all.contains(k) <==> a.contains(k) || b.contains(k) by {
        if all.contains(k) {
            let i = choose|i: int| 0 <= i < all.len() && all[i] == k;
            if i < a.len() {
                assert(a[i] == k);
            } else {
                assert(b[i - a.len()] == k);
            }
        }
        if a.contains(k) {
            let i = choose|i: int| 0 <= i < a.len() && a[i] == k;
            assert(all[i] == k);
        }
        if b.contains(k) {
            let i = choose|i: int| 0 <= i < b.len() && b[i] == k;
            assert(all[a.len() + i] == k);
        }
    }
    if a.no_duplicates() && b.no_duplicates() && apart(a, b) {
        assert forall|i: int, j: int| 0 <= i < all.len() && 0 <= j < all.len() && i != j implies all[i] != all[j] by {
            if i < a.len() && j < a.len() {
                assert(a[i] != a[j]);
            } else if i >= a.len() && j >= a.len() {
                assert(b[i - a.len()] != b[j - a.len()]);
            } else if i < a.len() {
                assert(a.contains(a[i]));
                assert(b.contains(b[j - a.len()]));
            } else {
                assert(a.contains(a[j]));
                assert(b.contains(b[i - a.len()]));
            }
        }
    }
}

/// The keys that are set aside from a page are exactly the reported keys that
/// lead to no player.
pub proof fn lemma_ill_keyed(generation: Generation, keys: Seq<Seq<char>>)
    ensures
        forall|k: Seq<char>| #[trigger]
            ill_keyed(generation, keys).contains(k) <==> keys.contains(k) && key_id(
                generation,
                k,
            ) is None,
    decreases keys.len(),
{
    let aside = ill_keyed(generation, keys);
    if keys.len() == 0 {
    } else {
        let before = ill_keyed(generation, keys.drop_last());
        let key = keys.last();
        lemma_ill_keyed(generation, keys.drop_last());
        assert forall|k: Seq<char>| #[trigger]
            aside.contains(k) <==> keys.contains(k) && key_id(generation, k) is None by {
            if keys.contains(k) {
                let i = choose|i: int| 0 <= i < keys.len() && keys[i] == k;
                if i < keys.len() - 1 {
                    assert(keys.drop_last()[i] == k);
                }
            }
            if keys.drop_last().contains(k) {
                let i = choose|i: int| 0 <= i < keys.drop_last().len() && keys.drop_last()[i] == k;
                assert(keys[i] == k);
            }
            if before.contains(k) {
                let i = choose|i: int| 0 <= i < before.len() && before[i] == k;
                if aside.len() > before.len() {
                    assert(aside[i] == k);
                }
            }
            if aside.contains(k) && !before.contains(k) {
                let i = choose|i: int| 0 <= i < aside.len() && aside[i] == k;
                if i < before.len() {
                    assert(before[i] == k);
                }
                assert(k == key);
                assert(keys[keys.len() - 1] == k);
            }
            if k == key && key_id(generation, k) is None {
                assert(aside[aside.len() - 1] == k);
            }
        }
    }
}

/// Once a value cannot be read, the values behind it do not change which one
/// is reported.
pub proof fn lemma_first_unreadable(values: Seq<RawValue>, i: int, upto: int)
    requires
        0 <= i < upto <= values.len(),
        present_profiles(values.take(i)) is Ok,
        read_value(Generation::Current, values[i]) is Err,
    ensures
        present_profiles(values.take(upto)) == Err::<Seq<PlayerInfoView>, int>(i),
    decreases upto - i,
{
    let head = values.take(upto);
    assert(head.drop_last() =~= values.take(upto - 1));
    assert(head.last() == values[upto - 1]);
    if upto == i + 1 {
    } else {
        lemma_first_unreadable(values, i, upto - 1);
    }
}

/// Whether a text is among the texts of a list.
pub fn contains_text(list: &Vec<String>, text: &String) -> (r: bool)
    ensures
        r == texts(list@).contains(text@),
{
    let mut i: usize = 0;
    while i < list.len()
        invariant
            i <= list.len(),
            forall|j: int| 0 <= j < i ==> texts(list@)[j] != text@,
        decreases list.len() - i,
    {
        if list[i] == *text {
            assert(texts(list@)[i as int] == text@);
            return true;
        }
        i += 1;
    }
    false
}

/// The keys of a page, sorted into those to fetch and those to pass over.
pub struct KeySplit {
    /// The keys to fetch: the ones that lead to a player and were not met
    /// before.
    pub fresh: Vec<String>,
    /// The player of each key to fetch.
    pub ids: Vec<PlayerId>,
    /// The keys that lead to no player.
    pub skipped: Vec<String>,
}

/// Sorts the keys of a page. A key that leads to no player is set aside, never
/// an error; a key that was met before, in `seen` or earlier in the page, is
/// dropped.
pub fn split_keys(generation: Generation, seen: &Vec<String>, page: Vec<String>) -> (r: KeySplit)
    ensures
        texts(r.fresh@) == fresh_keys(generation, texts(seen@), texts(page@)),
        r.ids@ == ids_of(generation, texts(r.fresh@)),
        texts(r.skipped@) == ill_keyed(generation, texts(page@)),
{
    let mut fresh: Vec<String> = Vec::new();
    let mut ids: Vec<PlayerId> = Vec::new();
    let mut skipped: Vec<String> = Vec::new();
    proof {
        assert(texts(page@).take(0) =~= Seq::empty());
        assert(texts(fresh@) =~= Seq::empty());
        assert(texts(skipped@) =~= Seq::empty());
        assert(ids@ =~= ids_of(generation, texts(fresh@)));
    }
    for key in it: page
        invariant
            it.seq() == page@,
            texts(fresh@) == fresh_keys(
                generation,
                texts(seen@),
                texts(page@).take(it.index() as int),
            ),
            ids@ == ids_of(generation, texts(fresh@)),
            texts(skipped@) == ill_keyed(generation, texts(page@).take(it.index() as int)),
    {
        proof {
            let i = it.index() as int;
            let upto = texts(page@).take(i + 1);
            assert(upto.drop_last() =~= texts(page@).take(i));
            assert(upto.last() == key@);
        }
        let ghost old_fresh = texts(fresh@);
        let ghost old_skipped = texts(skipped@);
        match parse_profile_key(generation, key.as_str()) {
            Some(id) => {
                if !contains_text(seen, &key) && !contains_text(&fresh, &key) {
                    fresh.push(key);
                    ids.push(id);
                    proof {
                        assert(texts(fresh@) =~= old_fresh.push(key@));
                        assert(ids@ =~= ids_of(generation, texts(fresh@)));
                    }
                }
            },
            None => {
                skipped.push(key);
                proof {
                    assert(texts(skipped@) =~= old_skipped.push(key@));
                }
            },
        }
    }
    proof {
        assert(texts(page@).take(page@.len() as int) =~= texts(page@));
    }
    KeySplit { fresh, ids, skipped }
}

/// Copies a list of texts.
pub fn copy_texts(list: &Vec<String>) -> (r: Vec<String>)
    ensures
        texts(r@) == texts(list@),
{
    let mut out: Vec<String> = Vec::new();
    let mut i: usize = 0;
    while i < list.len()
        invariant
            i <= list.len(),
            texts(out@) == texts(list@).take(i as int),
        decreases list.len() - i,
    {
        let ghost before = texts(out@);
        out.push(list[i].clone());
        proof {
            assert(texts(out@) =~= before.push(list@[i as int]@));
            assert(texts(list@).take(i + 1) =~= before.push(list@[i as int]@));
        }
        i += 1;
    }
    proof {
        assert(texts(list@).take(list@.len() as int) =~= texts(list@));
    }
    out
}

/// The profiles among the values of a bulk fetch from the current generation.
/// A value that holds no profile is passed over; the first value that cannot
/// be read fails the whole fetch.
pub fn collect_profiles(values: Vec<RawValue>) -> (r: Result<Vec<PlayerInfo>, DecodeError>)
    ensures
        match r {
            Ok(ps) => present_profiles(values@) == Ok::<_, int>(infos_view(ps@)),
            Err(e) => present_profiles(values@) matches Err(i) && 0 <= i < values@.len()
                && e.payload == values@[i] && read_value(Generation::Current, values@[i]) == Err::<
                Option<Option<PlayerInfoView>>,
                _,
            >(e.kind),
        },
{
    let mut found: Vec<PlayerInfo> = Vec::new();
    proof {
        assert(values@.take(0) =~= Seq::empty());
        assert(infos_view(found@) =~= Seq::empty());
    }
    for value in it: values
        invariant
            it.seq() == values@,
            present_profiles(values@.take(it.index() as int)) == Ok::<_, int>(infos_view(found@)),
    {
        proof {
            let i = it.index() as int;
            let upto = values@.take(i + 1);
            assert(upto.drop_last() =~= values@.take(i));
            assert(upto.last() == value);
        }
        let ghost old_found = infos_view(found@);
        match decode_value(Generation::Current, value) {
            Ok(Some(OptionalPlayerInfo::Present(info))) => {
                found.push(info);
                proof {
                    assert(infos_view(found@) =~= old_found.push(info@));
                }
            },
            Ok(_) => {},
            Err(e) => {
                proof {
                    lemma_first_unreadable(values@, it.index() as int, values@.len() as int);
                    assert(values@.take(values@.len() as int) =~= values@);
                }
                return Err(e);
            },
        }
    }
    proof {
        assert(values@.take(values@.len() as int) =~= values@);
    }
    Ok(found)
}

/// The members of the unknown-set, sorted into the players they name and the
/// members that name none.
pub fn split_members(members: Vec<String>) -> (r: (Vec<PlayerId>, Vec<String>))
    ensures
        r.0@ == member_ids(texts(members@)),
        texts(r.1@) == unreadable_members(texts(members@)),
{
    let mut ids: Vec<PlayerId> = Vec::new();
    let mut skipped: Vec<String> = Vec::new();
    proof {
        assert(texts(members@).take(0) =~= Seq::empty());
        assert(texts(skipped@) =~= Seq::empty());
        assert(ids@ =~= Seq::empty());
    }
    for member in it: members
        invariant
            it.seq() == members@,
            ids@ == member_ids(texts(members@).take(it.index() as int)),
            texts(skipped@) == unreadable_members(texts(members@).take(it.index() as int)),
    {
        proof {
            let i = it.index() as int;
            let upto = texts(members@).take(i + 1);
            assert(upto.drop_last() =~= texts(members@).take(i));
            assert(upto.last() == member@);
        }
        let ghost old_skipped = texts(skipped@);
        match PlayerId::parse(member.as_str()) {
            Some(id) => {
                ids.push(id);
            },
            None => {
                skipped.push(member);
                proof {
                    assert(texts(skipped@) =~= old_skipped.push(member@));
                }
            },
        }
    }
    proof {
        assert(texts(members@).take(members@.len() as int) =~= texts(members@));
    }
    (ids, skipped)
}

} // verus!
