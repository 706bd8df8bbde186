//! The record codec: how a cached classification of a player is laid out in
//! the bytes that the backend stores, and how it is read back.
//!
//! A stored record is a JSON document in UTF-8: an object whose member `type`
//! says which of the two classifications it holds. `{"type":"unknown"}`
//! stands for a player that upstream does not know. A profile is stored as
//! `"type":"present"` with the fields of the profile beside it: `uuid` (the
//! identifier in text), `name`, `region`, `points`, `overall`, `rankings` (an
//! object from the name of a game mode to the ranking held in it) and
//! `badges` (a list, which may be left out where it is empty).
//!
//! Reading a text into a tree and writing a tree as text are `serde_json`'s
//! work (see [`crate::json`]); what a tree says of a player is worked out
//! here.

use vstd::prelude::*;
use vstd::slice::*;
use vstd::string::*;
use vstd::utf8::*;
use crate::ident::{hyphenated, uuid_parse, PlayerId};
use crate::json::{
    find_member, items_view, json_parse, json_written, member, member_at, members_view,
    parse_json, write_json, Json, JsonView,
};
use crate::tiers::{
    badges_view, modes_view, Badge, BadgeView, ModeRanking, ModeRankingView, PlayerInfo,
    PlayerInfoView, Ranking,
};

verus! {

/// What the cache holds for a player that has been looked up: the profile, or
/// the knowledge that upstream has none. A player that was never looked up has
/// no record at all.
#[derive(Clone, Debug, PartialEq, Eq)]
pub enum OptionalPlayerInfo {
    Present(PlayerInfo),
    Unknown,
}

impl View for OptionalPlayerInfo {
    type V = Option<PlayerInfoView>;

    open spec fn view(&self) -> Option<PlayerInfoView> {
        match self {
            OptionalPlayerInfo::Present(info) => Some(info@),
            OptionalPlayerInfo::Unknown => None,
        }
    }
}

// ---------------------------------------------------------------------------
// From a record to its document.
// ---------------------------------------------------------------------------

/// The document of a number.
pub open spec fn number_tree(n: u64) -> JsonView {
    JsonView::Number(Some(n))
}

/// The document of a small number that may be missing: `null` where it is.
pub open spec fn peak_tree(n: Option<u8>) -> JsonView {
    match n {
        Some(n) => number_tree(n as u64),
        None => JsonView::Null,
    }
}

/// The document of a ranking.
pub open spec fn ranking_tree(r: Ranking) -> JsonView {
    JsonView::Object(
        seq![
            ("tier"@, number_tree(r.tier as u64)),
            ("pos"@, number_tree(r.pos as u64)),
            ("peak_tier"@, peak_tree(r.peak_tier)),
            ("peak_pos"@, peak_tree(r.peak_pos)),
            ("attained"@, number_tree(r.attained)),
            ("retired"@, JsonView::Bool(r.retired)),
        ],
    )
}

/// The document of a profile's rankings: an object with one member for each
/// of them, named by the game mode.
pub open spec fn modes_tree(ms: Seq<ModeRankingView>) -> JsonView {
    JsonView::Object(Seq::new(ms.len(), |i: int| (ms[i].mode, ranking_tree(ms[i].ranking))))
}

/// The document of a badge.
pub open spec fn badge_tree(b: BadgeView) -> JsonView {
    JsonView::Object(seq![("title"@, JsonView::Text(b.title)), ("desc"@, JsonView::Text(b.desc))])
}

/// The document of a profile's badges.
pub open spec fn badges_tree(bs: Seq<BadgeView>) -> JsonView {
    JsonView::Array(Seq::new(bs.len(), |i: int| badge_tree(bs[i])))
}

/// The document of a record.
pub open spec fn record_tree(r: Option<PlayerInfoView>) -> JsonView {
    match r {
        None => JsonView::Object(seq![("type"@, JsonView::Text("unknown"@))]),
        Some(p) => JsonView::Object(
            seq![
                ("type"@, JsonView::Text("present"@)),
                ("uuid"@, JsonView::Text(hyphenated(p.uuid.0))),
                ("name"@, JsonView::Text(p.name)),
                ("rankings"@, modes_tree(p.rankings)),
                ("region"@, JsonView::Text(p.region)),
                ("points"@, number_tree(p.points)),
                ("overall"@, number_tree(p.overall)),
                ("badges"@, badges_tree(p.badges)),
            ],
        ),
    }
}

/// The bytes that are stored for a record: its document, written out, in
/// UTF-8.
pub open spec fn enc_record(r: Option<PlayerInfoView>) -> Seq<u8> {
    encode_utf8(json_written(record_tree(r)))
}

// ---------------------------------------------------------------------------
// From a document to the record.
// ---------------------------------------------------------------------------

/// The number that a document is, where it is one.
pub open spec fn number_of(tree: JsonView) -> Option<u64> {
    match tree {
        JsonView::Number(Some(n)) => Some(n),
        _ => None,
    }
}

/// The number below 256 that a document is, where it is one.
pub open spec fn small_of(tree: JsonView) -> Option<u8> {
    match tree {
        JsonView::Number(Some(n)) => if n <= 255 {
            Some(n as u8)
        } else {
            None
        },
        _ => None,
    }
}

/// The text that a document is, where it is one.
pub open spec fn text_of(tree: JsonView) -> Option<Seq<char>> {
    match tree {
        JsonView::Text(t) => Some(t),
        _ => None,
    }
}

/// The truth value that a document is, where it is one.
pub open spec fn flag_of(tree: JsonView) -> Option<bool> {
    match tree {
        JsonView::Bool(b) => Some(b),
        _ => None,
    }
}

/// What is read of a small number that may be missing: nothing where the
/// member is missing or `null`; the number where it is one below 256. Any
/// other member is refused.
pub open spec fn peak_of(found: Option<JsonView>) -> Option<Option<u8>> {
    match found {
        None => Some(None),
        Some(JsonView::Null) => Some(None),
        Some(tree) => match small_of(tree) {
            Some(n) => Some(Some(n)),
            None => None,
        },
    }
}

/// The member of the given name, read by `read`; nothing where the member is
/// missing.
pub open spec fn field<T>(
    members: Seq<(Seq<char>, JsonView)>,
    name: Seq<char>,
    read: spec_fn(JsonView) -> Option<T>,
) -> Option<T> {
    match member(members, name) {
        Some(tree) => read(tree),
        None => None,
    }
}

/// The ranking that a document holds: it is an object with the members
/// `tier`, `pos`, `attained` and `retired`; `peak_tier` and `peak_pos` may be
/// missing.
pub open spec fn ranking_of(tree: JsonView) -> Option<Ranking> {
    match tree {
        JsonView::Object(ms) => {
            let tier = field(ms, "tier"@, |t: JsonView| small_of(t));
            let pos = field(ms, "pos"@, |t: JsonView| small_of(t));
            let peak_tier = peak_of(member(ms, "peak_tier"@));
            let peak_pos = peak_of(member(ms, "peak_pos"@));
            let attained = field(ms, "attained"@, |t: JsonView| number_of(t));
            let retired = field(ms, "retired"@, |t: JsonView| flag_of(t));
            if tier is Some && pos is Some && peak_tier is Some && peak_pos is Some
                && attained is Some && retired is Some {
                Some(
                    Ranking {
                        tier: tier->0,
                        pos: pos->0,
                        peak_tier: peak_tier->0,
                        peak_pos: peak_pos->0,
                        attained: attained->0,
                        retired: retired->0,
                    },
                )
            } else {
                None
            }
        },
        _ => None,
    }
}

/// The rankings that a document holds: it is an object, each member of which
/// holds a ranking; the member's name is the game mode.
pub open spec fn modes_of(tree: JsonView) -> Option<Seq<ModeRankingView>> {
    match tree {
        JsonView::Object(ms) => if forall|i: int|
            0 <= i < ms.len() ==> ranking_of(#[trigger] ms[i].1) is Some {
            Some(
                Seq::new(
                    ms.len(),
                    |i: int| ModeRankingView { mode: ms[i].0, ranking: ranking_of(ms[i].1)->0 },
                ),
            )
        } else {
            None
        },
        _ => None,
    }
}

/// The badge that a document holds: it is an object with the texts `title`
/// and `desc`.
pub open spec fn badge_of(tree: JsonView) -> Option<BadgeView> {
    match tree {
        JsonView::Object(ms) => {
            let title = field(ms, "title"@, |t: JsonView| text_of(t));
            let desc = field(ms, "desc"@, |t: JsonView| text_of(t));
            if title is Some && desc is Some {
                Some(BadgeView { title: title->0, desc: desc->0 })
            } else {
                None
            }
        },
        _ => None,
    }
}

/// The badges that a document holds: none where there is no document, else
/// it is a list of badges.
pub open spec fn badges_of(found: Option<JsonView>) -> Option<Seq<BadgeView>> {
    match found {
        None => Some(Seq::empty()),
        Some(JsonView::Array(items)) => if forall|i: int|
            0 <= i < items.len() ==> badge_of(#[trigger] items[i]) is Some {
            Some(Seq::new(items.len(), |i: int| badge_of(items[i])->0))
        } else {
            None
        },
        Some(_) => None,
    }
}

/// The identifier that a document holds: it is a text that reads as one.
pub open spec fn id_of(tree: JsonView) -> Option<PlayerId> {
    match tree {
        JsonView::Text(t) => match uuid_parse(t) {
            Some(bits) => Some(PlayerId(bits)),
            None => None,
        },
        _ => None,
    }
}

/// The profile that the members of an object hold: every field but `badges`
/// has to be there.
pub open spec fn info_of(ms: Seq<(Seq<char>, JsonView)>) -> Option<PlayerInfoView> {
    let uuid = field(ms, "uuid"@, |t: JsonView| id_of(t));
    let name = field(ms, "name"@, |t: JsonView| text_of(t));
    let rankings = field(ms, "rankings"@, |t: JsonView| modes_of(t));
    let region = field(ms, "region"@, |t: JsonView| text_of(t));
    let points = field(ms, "points"@, |t: JsonView| number_of(t));
    let overall = field(ms, "overall"@, |t: JsonView| number_of(t));
    let badges = badges_of(member(ms, "badges"@));
    if uuid is Some && name is Some && rankings is Some && region is Some && points is Some
        && overall is Some && badges is Some {
        Some(
            PlayerInfoView {
                uuid: uuid->0,
                name: name->0,
                rankings: rankings->0,
                region: region->0,
                points: points->0,
                overall: overall->0,
                badges: badges->0,
            },
        )
    } else {
        None
    }
}

/// The record that a document holds: it is an object whose member `type` is
/// the text `unknown`, or the text `present` beside the fields of a profile.
pub open spec fn record_of(tree: JsonView) -> Option<Option<PlayerInfoView>> {
    match tree {
        JsonView::Object(ms) => match member(ms, "type"@) {
            Some(JsonView::Text(tag)) => if tag == "unknown"@ {
                Some(None)
            } else if tag == "present"@ {
                match info_of(ms) {
                    Some(p) => Some(Some(p)),
                    None => None,
                }
            } else {
                None
            },
            _ => None,
        },
        _ => None,
    }
}

/// The record that stored bytes hold: they are UTF-8, the text is a JSON
/// document, and the document holds a record.
pub open spec fn parse_record(b: Seq<u8>) -> Option<Option<PlayerInfoView>> {
    if valid_utf8(b) {
        match json_parse(decode_utf8(b)) {
            Some(tree) => record_of(tree),
            None => None,
        }
    } else {
        None
    }
}

/// Whether a record that is written is read back as it was. The text of a
/// document is `serde_json`'s, so this is a statement about it.
pub open spec fn reads_back(r: Option<PlayerInfoView>) -> bool {
    parse_record(enc_record(r)) == Some(r)
}

// ---------------------------------------------------------------------------
// Reading back what was written.
// ---------------------------------------------------------------------------

/// The first member of a name is the member of that name.
pub proof fn lemma_member(members: Seq<(Seq<char>, JsonView)>, name: Seq<char>, i: int)
    requires
        member_at(members, name, i),
    ensures
        member(members, name) == Some(members[i].1),
{
    let chosen = choose|c: int| member_at(members, name, c);
    if chosen < i {
        assert(members[chosen].0 != name);
    } else if i < chosen {
        assert(members[i].0 != name);
    }
}

/// The document of a ranking holds that ranking.
pub proof fn lemma_ranking_read(r: Ranking)
    ensures
        ranking_of(ranking_tree(r)) == Some(r),
{
    reveal_strlit("tier");
    reveal_strlit("pos");
    reveal_strlit("peak_tier");
    reveal_strlit("peak_pos");
    reveal_strlit("attained");
    reveal_strlit("retired");
    let ms = ranking_tree(r)->Object_0;
    assert("tier"@.len() == 4 && "pos"@.len() == 3 && "peak_tier"@.len() == 9);
    assert("peak_pos"@.len() == 8 && "attained"@.len() == 8 && "retired"@.len() == 7);
    assert("peak_pos"@[0] == 'p' && "attained"@[0] == 'a');
    lemma_member(ms, "tier"@, 0);
    lemma_member(ms, "pos"@, 1);
    lemma_member(ms, "peak_tier"@, 2);
    lemma_member(ms, "peak_pos"@, 3);
    lemma_member(ms, "attained"@, 4);
    lemma_member(ms, "retired"@, 5);
}

/// The document of a badge holds that badge.
pub proof fn lemma_badge_read(b: BadgeView)
    ensures
        badge_of(badge_tree(b)) == Some(b),
{
    reveal_strlit("title");
    reveal_strlit("desc");
    let ms = badge_tree(b)->Object_0;
    assert("title"@.len() == 5 && "desc"@.len() == 4);
    lemma_member(ms, "title"@, 0);
    lemma_member(ms, "desc"@, 1);
}

/// The document of a list of rankings holds that list.
pub proof fn lemma_modes_read(ms: Seq<ModeRankingView>)
    ensures
        modes_of(modes_tree(ms)) == Some(ms),
{
    let members = modes_tree(ms)->Object_0;
    assert forall|i: int| 0 <= i < members.len() implies ranking_of(#[trigger] members[i].1)
        == Some(ms[i].ranking) by {
        lemma_ranking_read(ms[i].ranking);
    }
    assert(modes_of(modes_tree(ms))->0 =~= ms);
}

/// The document of a list of badges holds that list.
pub proof fn lemma_badges_read(bs: Seq<BadgeView>)
    ensures
        badges_of(Some(badges_tree(bs))) == Some(bs),
{
    let items = badges_tree(bs)->Array_0;
    assert forall|i: int| 0 <= i < items.len() implies badge_of(#[trigger] items[i]) == Some(
        bs[i],
    ) by {
        lemma_badge_read(bs[i]);
    }
    assert(badges_of(Some(badges_tree(bs)))->0 =~= bs);
}

/// The document of a record holds that record, provided that the player's
/// identifier is read back from its text.
pub proof fn lemma_record_read(r: Option<PlayerInfoView>)
    requires
        r matches Some(p) ==> uuid_parse(hyphenated(p.uuid.0)) == Some(p.uuid.0),
    ensures
        record_of(record_tree(r)) == Some(r),
{
    reveal_strlit("type");
    reveal_strlit("unknown");
    reveal_strlit("present");
    let ms = record_tree(r)->Object_0;
    lemma_member(ms, "type"@, 0);
    match r {
        None => {},
        Some(p) => {
            reveal_strlit("uuid");
            reveal_strlit("name");
            reveal_strlit("rankings");
            reveal_strlit("region");
            reveal_strlit("points");
            reveal_strlit("overall");
            reveal_strlit("badges");
            assert("type"@.len() == 4 && "uuid"@.len() == 4 && "name"@.len() == 4);
            assert("rankings"@.len() == 8 && "region"@.len() == 6 && "points"@.len() == 6);
            assert("overall"@.len() == 7 && "badges"@.len() == 6);
            assert("type"@[0] == 't' && "uuid"@[0] == 'u' && "name"@[0] == 'n');
            assert("region"@[0] == 'r' && "points"@[0] == 'p' && "badges"@[0] == 'b');
            assert("unknown"@[0] == 'u' && "present"@[0] == 'p');
            lemma_member(ms, "uuid"@, 1);
            lemma_member(ms, "name"@, 2);
            lemma_member(ms, "rankings"@, 3);
            lemma_member(ms, "region"@, 4);
            lemma_member(ms, "points"@, 5);
            lemma_member(ms, "overall"@, 6);
            lemma_member(ms, "badges"@, 7);
            lemma_modes_read(p.rankings);
            lemma_badges_read(p.badges);
        },
    }
}

/// Encoding a record and decoding the bytes gives the record back, whatever
/// the record: this is what the codec adds to the two outside facts that the
/// law assumes, that `serde_json` reads the record's document back from the
/// text it wrote for it, and that the player's identifier is read back from
/// its text.
pub proof fn law_round_trip(r: Option<PlayerInfoView>)
    requires
        json_parse(json_written(record_tree(r))) == Some(record_tree(r)),
        r matches Some(p) ==> uuid_parse(hyphenated(p.uuid.0)) == Some(p.uuid.0),
    ensures
        parse_record(enc_record(r)) == Some(r),
        reads_back(r),
{
    let text = json_written(record_tree(r));
    encode_utf8_valid_utf8(text);
    encode_utf8_decode_utf8(text);
    lemma_record_read(r);
}

/// The two classifications are told apart by their documents: no document
/// holds both a profile and the statement that there is none.
pub proof fn law_tag_decides(tree: JsonView)
    ensures
        record_of(tree) matches Some(r) ==> {
            &&& tree matches JsonView::Object(ms)
            &&& member(ms, "type"@) == Some(
                JsonView::Text(
                    if r is Some {
                        "present"@
                    } else {
                        "unknown"@
                    },
                ),
            )
        },
{
    reveal_strlit("unknown");
    reveal_strlit("present");
    assert("unknown"@[0] == 'u' && "present"@[0] == 'p');
}

// ---------------------------------------------------------------------------
// Building the document of a record.
// ---------------------------------------------------------------------------

fn number_json(n: u64) -> (r: Json)
    ensures
        r@ == number_tree(n),
{
    Json::Number(Some(n))
}

fn peak_json(n: Option<u8>) -> (r: Json)
    ensures
        r@ == peak_tree(n),
{
    match n {
        Some(n) => Json::Number(Some(n as u64)),
        None => Json::Null,
    }
}

fn text_json(text: &str) -> (r: Json)
    ensures
        r@ == JsonView::Text(text@),
{
    Json::Text(text.to_owned())
}

fn flag_json(b: bool) -> (r: Json)
    ensures
        r@ == JsonView::Bool(b),
{
    Json::Bool(b)
}

/// Adds a member to the members of an object.
fn add_member(members: &mut Vec<(String, Json)>, name: &str, tree: Json)
    ensures
        members_view(final(members)@) == members_view(old(members)@).push((name@, tree@)),
{
    members.push((name.to_owned(), tree));
    assert(members_view(members@) =~= members_view(old(members)@).push((name@, tree@)));
}

/// The object with the given members.
fn object_json(members: Vec<(String, Json)>) -> (r: Json)
    ensures
        r@ == JsonView::Object(members_view(members@)),
{
    Json::Object(members)
}

/// Builds the document of a ranking.
fn ranking_json(r: &Ranking) -> (tree: Json)
    ensures
        tree@ == ranking_tree(*r),
{
    let mut members: Vec<(String, Json)> = Vec::new();
    assert(members_view(members@) =~= Seq::empty());
    add_member(&mut members, "tier", number_json(r.tier as u64));
    add_member(&mut members, "pos", number_json(r.pos as u64));
    add_member(&mut members, "peak_tier", peak_json(r.peak_tier));
    add_member(&mut members, "peak_pos", peak_json(r.peak_pos));
    add_member(&mut members, "attained", number_json(r.attained));
    add_member(&mut members, "retired", flag_json(r.retired));
    assert(members_view(members@) =~= ranking_tree(*r)->Object_0);
    object_json(members)
}

/// Builds the document of a list of rankings.
fn modes_json(modes: &Vec<ModeRanking>) -> (tree: Json)
    ensures
        tree@ == modes_tree(modes_view(modes@)),
{
    let mut members: Vec<(String, Json)> = Vec::new();
    assert(members_view(members@) =~= Seq::empty());
    let mut i: usize = 0;
    while i < modes.len()
        invariant
            i <= modes.len(),
            members_view(members@) =~= Seq::new(
                i as nat,
                |j: int| (modes@[j].mode@, ranking_tree(modes@[j].ranking)),
            ),
        decreases modes.len() - i,
    {
        let tree = ranking_json(&modes[i].ranking);
        add_member(&mut members, modes[i].mode.as_str(), tree);
        i += 1;
    }
    assert(members_view(members@) =~= modes_tree(modes_view(modes@))->Object_0);
    object_json(members)
}

/// Builds the document of a badge.
fn badge_json(b: &Badge) -> (tree: Json)
    ensures
        tree@ == badge_tree(b@),
{
    let mut members: Vec<(String, Json)> = Vec::new();
    assert(members_view(members@) =~= Seq::empty());
    add_member(&mut members, "title", text_json(b.title.as_str()));
    add_member(&mut members, "desc", text_json(b.desc.as_str()));
    assert(members_view(members@) =~= badge_tree(b@)->Object_0);
    object_json(members)
}

/// Builds the document of a list of badges.
fn badges_json(badges: &Vec<Badge>) -> (tree: Json)
    ensures
        tree@ == badges_tree(badges_view(badges@)),
{
    let mut items: Vec<Json> = Vec::new();
    let mut i: usize = 0;
    while i < badges.len()
        invariant
            i <= badges.len(),
            items@.len() == i,
            forall|j: int| 0 <= j < i ==> (#[trigger] items@[j])@ == badge_tree(badges@[j]@),
        decreases badges.len() - i,
    {
        items.push(badge_json(&badges[i]));
        i += 1;
    }
    assert(items_view(items@) =~= badges_tree(badges_view(badges@))->Array_0);
    Json::Array(items)
}

/// Builds the document of a profile.
pub fn profile_json(info: &PlayerInfo) -> (tree: Json)
    ensures
        tree@ == record_tree(Some(info@)),
{
    let mut members: Vec<(String, Json)> = Vec::new();
    assert(members_view(members@) =~= Seq::empty());
    let id = info.uuid.to_text();
    add_member(&mut members, "type", text_json("present"));
    add_member(&mut members, "uuid", text_json(id.as_str()));
    add_member(&mut members, "name", text_json(info.name.as_str()));
    add_member(&mut members, "rankings", modes_json(&info.rankings));
    add_member(&mut members, "region", text_json(info.region.as_str()));
    add_member(&mut members, "points", number_json(info.points));
    add_member(&mut members, "overall", number_json(info.overall));
    add_member(&mut members, "badges", badges_json(&info.badges));
    assert(members_view(members@) =~= record_tree(Some(info@))->Object_0);
    object_json(members)
}

/// Writes out a text in UTF-8.
fn text_bytes(text: String) -> (r: Vec<u8>)
    ensures
        r@ == encode_utf8(text@),
{
    slice_to_vec(text.as_str().as_bytes())
}

/// The bytes to store for a profile: those of the record that holds it.
pub fn encode_profile(info: &PlayerInfo) -> (r: Vec<u8>)
    ensures
        r@ == enc_record(Some(info@)),
{
    let tree = profile_json(info);
    text_bytes(write_json(&tree))
}

// ---------------------------------------------------------------------------
// Reading the record of a document.
// ---------------------------------------------------------------------------

fn number_from(tree: &Json) -> (r: Option<u64>)
    ensures
        r == number_of(tree@),
{
    match tree {
        Json::Number(Some(n)) => Some(*n),
        _ => None,
    }
}

fn small_from(tree: &Json) -> (r: Option<u8>)
    ensures
        r == small_of(tree@),
{
    match tree {
        Json::Number(Some(n)) => if *n <= 255 {
            Some(*n as u8)
        } else {
            None
        },
        _ => None,
    }
}

fn text_from(tree: &Json) -> (r: Option<String>)
    ensures
        match r {
            Some(t) => text_of(tree@) == Some(t@),
            None => text_of(tree@) is None,
        },
{
    match tree {
        Json::Text(t) => Some(t.clone()),
        _ => None,
    }
}

fn flag_from(tree: &Json) -> (r: Option<bool>)
    ensures
        r == flag_of(tree@),
{
    match tree {
        Json::Bool(b) => Some(*b),
        _ => None,
    }
}

fn peak_from(found: Option<&Json>) -> (r: Option<Option<u8>>)
    ensures
        r == peak_of(
            match found {
                Some(tree) => Some(tree@),
                None => None,
            },
        ),
{
    match found {
        None => Some(None),
        Some(Json::Null) => Some(None),
        Some(tree) => match small_from(tree) {
            Some(n) => Some(Some(n)),
            None => None,
        },
    }
}

fn id_from(tree: &Json) -> (r: Option<PlayerId>)
    ensures
        r == id_of(tree@),
{
    match tree {
        Json::Text(t) => PlayerId::parse(t.as_str()),
        _ => None,
    }
}

/// Reads the ranking that a document holds.
fn ranking_from(tree: &Json) -> (r: Option<Ranking>)
    ensures
        r == ranking_of(tree@),
{
    let members = match tree {
        Json::Object(members) => members,
        _ => { return None; },
    };
    let tier = match find_member(members, "tier") {
        Some(t) => small_from(t),
        None => None,
    };
    let pos = match find_member(members, "pos") {
        Some(t) => small_from(t),
        None => None,
    };
    let peak_tier = peak_from(find_member(members, "peak_tier"));
    let peak_pos = peak_from(find_member(members, "peak_pos"));
    let attained = match find_member(members, "attained") {
        Some(t) => number_from(t),
        None => None,
    };
    let retired = match find_member(members, "retired") {
        Some(t) => flag_from(t),
        None => None,
    };
    match (tier, pos, peak_tier, peak_pos, attained, retired) {
        (Some(tier), Some(pos), Some(peak_tier), Some(peak_pos), Some(attained), Some(retired)) => {
            Some(Ranking { tier, pos, peak_tier, peak_pos, attained, retired })
        },
        _ => None,
    }
}

/// Reads the rankings that a document holds.
fn modes_from(tree: &Json) -> (r: Option<Vec<ModeRanking>>)
    ensures
        match r {
            Some(v) => modes_of(tree@) == Some(modes_view(v@)),
            None => modes_of(tree@) is None,
        },
{
    let members = match tree {
        Json::Object(members) => members,
        _ => { return None; },
    };
    let ghost ms = members_view(members@);
    let mut out: Vec<ModeRanking> = Vec::new();
    let mut i: usize = 0;
    while i < members.len()
        invariant
            i <= members.len(),
            ms == members_view(members@),
            tree@ == JsonView::Object(ms),
            out@.len() == i,
            forall|j: int| 0 <= j < i ==> ranking_of(#[trigger] ms[j].1) is Some,
            forall|j: int|
                0 <= j < i ==> (#[trigger] out@[j])@ == (ModeRankingView {
                    mode: ms[j].0,
                    ranking: ranking_of(ms[j].1)->0,
                }),
        decreases members.len() - i,
    {
        match ranking_from(&members[i].1) {
            Some(ranking) => {
                out.push(ModeRanking { mode: members[i].0.clone(), ranking });
            },
            None => {
                assert(ranking_of(ms[i as int].1) is None);
                return None;
            },
        }
        i += 1;
    }
    assert(modes_view(out@) =~= modes_of(tree@)->0);
    Some(out)
}

/// Reads the badge that a document holds.
fn badge_from(tree: &Json) -> (r: Option<Badge>)
    ensures
        match r {
            Some(b) => badge_of(tree@) == Some(b@),
            None => badge_of(tree@) is None,
        },
{
    let members = match tree {
        Json::Object(members) => members,
        _ => { return None; },
    };
    let title = match find_member(members, "title") {
        Some(t) => text_from(t),
        None => None,
    };
    let desc = match find_member(members, "desc") {
        Some(t) => text_from(t),
        None => None,
    };
    match (title, desc) {
        (Some(title), Some(desc)) => Some(Badge { title, desc }),
        _ => None,
    }
}

/// Reads the badges that a document holds, where there is one.
fn badges_from(found: Option<&Json>) -> (r: Option<Vec<Badge>>)
    ensures
        match r {
            Some(v) => badges_of(
                match found {
                    Some(tree) => Some(tree@),
                    None => None,
                },
            ) == Some(badges_view(v@)),
            None => badges_of(
                match found {
                    Some(tree) => Some(tree@),
                    None => None,
                },
            ) is None,
        },
{
    let items = match found {
        None => {
            let none: Vec<Badge> = Vec::new();
            assert(badges_view(none@) =~= Seq::empty());
            return Some(none);
        },
        Some(Json::Array(items)) => items,
        Some(_) => { return None; },
    };
    let ghost views = items_view(items@);
    let mut out: Vec<Badge> = Vec::new();
    let mut i: usize = 0;
    while i < items.len()
        invariant
            i <= items.len(),
            views == items_view(items@),
            found matches Some(tree) && tree@ == JsonView::Array(views),
            out@.len() == i,
            forall|j: int| 0 <= j < i ==> badge_of(#[trigger] views[j]) is Some,
            forall|j: int| 0 <= j < i ==> (#[trigger] out@[j])@ == badge_of(views[j])->0,
        decreases items.len() - i,
    {
        match badge_from(&items[i]) {
            Some(badge) => {
                out.push(badge);
            },
            None => {
                assert(badge_of(views[i as int]) is None);
                return None;
            },
        }
        i += 1;
    }
    assert(badges_view(out@) =~= badges_of(Some(found.unwrap()@))->0);
    Some(out)
}

/// Reads the profile that the members of an object hold.
fn info_from(members: &Vec<(String, Json)>) -> (r: Option<PlayerInfo>)
    ensures
        match r {
            Some(p) => info_of(members_view(members@)) == Some(p@),
            None => info_of(members_view(members@)) is None,
        },
{
    let uuid = match find_member(members, "uuid") {
        Some(t) => id_from(t),
        None => None,
    };
    let name = match find_member(members, "name") {
        Some(t) => text_from(t),
        None => None,
    };
    let rankings = match find_member(members, "rankings") {
        Some(t) => modes_from(t),
        None => None,
    };
    let region = match find_member(members, "region") {
        Some(t) => text_from(t),
        None => None,
    };
    let points = match find_member(members, "points") {
        Some(t) => number_from(t),
        None => None,
    };
    let overall = match find_member(members, "overall") {
        Some(t) => number_from(t),
        None => None,
    };
    let badges = badges_from(find_member(members, "badges"));
    match (uuid, name, rankings, region, points, overall, badges) {
        (
            Some(uuid),
            Some(name),
            Some(rankings),
            Some(region),
            Some(points),
            Some(overall),
            Some(badges),
        ) => Some(PlayerInfo { uuid, name, rankings, region, points, overall, badges }),
        _ => None,
    }
}

impl OptionalPlayerInfo {
    /// The document of this record.
    pub fn to_tree(&self) -> (tree: Json)
        ensures
            tree@ == record_tree(self@),
    {
        match self {
            OptionalPlayerInfo::Present(info) => profile_json(info),
            OptionalPlayerInfo::Unknown => {
                let mut members: Vec<(String, Json)> = Vec::new();
                assert(members_view(members@) =~= Seq::empty());
                add_member(&mut members, "type", text_json("unknown"));
                assert(members_view(members@) =~= record_tree(None)->Object_0);
                object_json(members)
            },
        }
    }

    /// Reads the record that a document holds: `None` where it holds none.
    pub fn from_tree(tree: &Json) -> (r: Option<OptionalPlayerInfo>)
        ensures
            match r {
                Some(record) => record_of(tree@) == Some(record@),
                None => record_of(tree@) is None,
            },
    {
        let members = match tree {
            Json::Object(members) => members,
            _ => { return None; },
        };
        let tag = match find_member(members, "type") {
            Some(t) => text_from(t),
            None => None,
        };
        let unknown = "unknown".to_owned();
        let present = "present".to_owned();
        match tag {
            Some(tag) => {
                if tag == unknown {
                    Some(OptionalPlayerInfo::Unknown)
                } else if tag == present {
                    match info_from(members) {
                        Some(info) => Some(OptionalPlayerInfo::Present(info)),
                        None => None,
                    }
                } else {
                    None
                }
            },
            None => None,
        }
    }

    /// The bytes to store for this record.
    pub fn encode(&self) -> (r: Vec<u8>)
        ensures
            r@ == enc_record(self@),
    {
        let tree = self.to_tree();
        text_bytes(write_json(&tree))
    }

    /// Reads a record from stored bytes: the record that the bytes hold, or
    /// why they hold none.
    pub fn read(bytes: &[u8]) -> (r: Result<OptionalPlayerInfo, DecodeErrorKind>)
        ensures
            match r {
                Ok(record) => parse_record(bytes@) == Some(record@),
                Err(kind) => parse_record(bytes@) is None && kind == unread_kind(bytes@),
            },
    {
        match str_from_utf8(bytes) {
            Some(text) => {
                proof {
                    encode_utf8_decode_utf8(text@);
                }
                let record = match parse_json(text) {
                    Some(tree) => OptionalPlayerInfo::from_tree(&tree),
                    None => None,
                };
                match record {
                    Some(record) => Ok(record),
                    None => Err(DecodeErrorKind::Malformed),
                }
            },
            None => Err(DecodeErrorKind::NotUtf8),
        }
    }

    /// Reads a record from stored bytes: the record that the bytes hold, or
    /// `None` where they hold none.
    pub fn decode(bytes: &[u8]) -> (r: Option<OptionalPlayerInfo>)
        ensures
            match r {
                Some(record) => parse_record(bytes@) == Some(record@),
                None => parse_record(bytes@) is None,
            },
    {
        match OptionalPlayerInfo::read(bytes) {
            Ok(record) => Some(record),
            Err(_) => None,
        }
    }
}

/// Calls `std::str::from_utf8`. Trusted: it accepts exactly the well-formed
/// UTF-8, and the text it hands back consists of the given bytes.
#[verifier::external_body]
fn str_from_utf8<'a>(bytes: &'a [u8]) -> (r: Option<&'a str>)
    ensures
        r is Some <==> valid_utf8(bytes@),
        r matches Some(s) ==> encode_utf8(s@) == bytes@,
{
    match std::str::from_utf8(bytes) {
        Ok(s) => Some(s),
        Err(_) => None,
    }
}


/// A stored value as the backend hands it back, reduced to what the codec
/// reads: nothing, a byte string, or a reply of some other kind, of which only
/// a description is kept.
#[derive(Clone, Debug, PartialEq, Eq)]
pub enum RawValue {
    Nil,
    Bulk(Vec<u8>),
    Other(String),
}

/// Why a stored value could not be read.
#[derive(Clone, Copy, Debug, PartialEq, Eq, Structural)]
pub enum DecodeErrorKind {
    /// The value is a byte string, but not text in UTF-8.
    NotUtf8,
    /// The value is text, but not the document of a record.
    Malformed,
    /// The value is neither missing nor a byte string.
    UnexpectedType,
}

/// A stored value that could not be read, with the value itself.
#[derive(Clone, Debug, PartialEq, Eq)]
pub struct DecodeError {
    pub kind: DecodeErrorKind,
    pub payload: RawValue,
}

/// The two generations of the cache's schema. They differ in where a player
/// that upstream does not know is recorded.
#[derive(Clone, Copy, Debug, PartialEq, Eq, Structural)]
pub enum Generation {
    /// Profiles and "unknown" markers share one namespace, and a missing value
    /// reads as "unknown".
    Legacy,
    /// Only profiles live in the namespace; "unknown" markers are members of
    /// the unknown-set, so a missing value says nothing.
    Current,
}

/// Why bytes that hold no record could not be read.
pub open spec fn unread_kind(bytes: Seq<u8>) -> DecodeErrorKind {
    if valid_utf8(bytes) {
        DecodeErrorKind::Malformed
    } else {
        DecodeErrorKind::NotUtf8
    }
}

/// What a stored value says in a generation: `Ok(Some(record))` for a record,
/// `Ok(None)` where the value classifies nothing, or the kind of the failure.
pub open spec fn read_value(generation: Generation, v: RawValue) -> Result<
    Option<Option<PlayerInfoView>>,
    DecodeErrorKind,
> {
    match v {
        RawValue::Nil => match generation {
            Generation::Legacy => Ok(Some(None)),
            Generation::Current => Ok(None),
        },
        RawValue::Bulk(bytes) => match parse_record(bytes@) {
            Some(record) => Ok(Some(record)),
            None => Err(unread_kind(bytes@)),
        },
        RawValue::Other(_) => Err(DecodeErrorKind::UnexpectedType),
    }
}

impl OptionalPlayerInfo {
    /// Reads a value of the legacy namespace, where a missing value stands for
    /// a player that upstream does not know. A failure carries the offending
    /// value.
    pub fn from_redis_value(v: RawValue) -> (r: Result<OptionalPlayerInfo, DecodeError>)
        ensures
            match r {
                Ok(record) => read_value(Generation::Legacy, v) == Ok::<_, DecodeErrorKind>(
                    Some(record@),
                ),
                Err(e) => read_value(Generation::Legacy, v) == Err::<
                    Option<Option<PlayerInfoView>>,
                    _,
                >(e.kind) && e.payload == v,
            },
    {
        match v {
            RawValue::Nil => Ok(OptionalPlayerInfo::Unknown),
            RawValue::Bulk(bytes) => match OptionalPlayerInfo::read(bytes.as_slice()) {
                Ok(record) => Ok(record),
                Err(kind) => Err(DecodeError { kind, payload: RawValue::Bulk(bytes) }),
            },
            RawValue::Other(what) => Err(
                DecodeError {
                    kind: DecodeErrorKind::UnexpectedType,
                    payload: RawValue::Other(what),
                },
            ),
        }
    }
}

/// Reads a stored value under the rules of a schema generation: in the current
/// one a missing value is no record, and every other value reads as it does in
/// the legacy one.
pub fn decode_value(generation: Generation, v: RawValue) -> (r: Result<
    Option<OptionalPlayerInfo>,
    DecodeError,
>)
    ensures
        match r {
            Ok(Some(record)) => read_value(generation, v) == Ok::<_, DecodeErrorKind>(
                Some(record@),
            ),
            Ok(None) => read_value(generation, v) == Ok::<
                Option<Option<PlayerInfoView>>,
                DecodeErrorKind,
            >(None),
            Err(e) => read_value(generation, v) == Err::<Option<Option<PlayerInfoView>>, _>(
                e.kind,
            ) && e.payload == v,
        },
{
    match (generation, &v) {
        (Generation::Current, RawValue::Nil) => Ok(None),
        _ => match OptionalPlayerInfo::from_redis_value(v) {
            Ok(record) => Ok(Some(record)),
            Err(e) => Err(e),
        },
    }
}

impl From<Option<PlayerInfo>> for OptionalPlayerInfo {
    fn from(player: Option<PlayerInfo>) -> (r: OptionalPlayerInfo) {
        match player {
            Some(player) => OptionalPlayerInfo::Present(player),
            None => OptionalPlayerInfo::Unknown,
        }
    }
}

impl vstd::std_specs::convert::FromSpecImpl<Option<PlayerInfo>> for OptionalPlayerInfo {
    open spec fn obeys_from_spec() -> bool {
        true
    }

    open spec fn from_spec(player: Option<PlayerInfo>) -> OptionalPlayerInfo {
        match player {
            Some(player) => OptionalPlayerInfo::Present(player),
            None => OptionalPlayerInfo::Unknown,
        }
    }
}

impl From<OptionalPlayerInfo> for Option<PlayerInfo> {
    fn from(val: OptionalPlayerInfo) -> (r: Option<PlayerInfo>) {
        match val {
            OptionalPlayerInfo::Present(player) => Some(player),
            OptionalPlayerInfo::Unknown => None,
        }
    }
}

impl vstd::std_specs::convert::FromSpecImpl<OptionalPlayerInfo> for Option<PlayerInfo> {
    open spec fn obeys_from_spec() -> bool {
        true
    }

    open spec fn from_spec(val: OptionalPlayerInfo) -> Option<PlayerInfo> {
        match val {
            OptionalPlayerInfo::Present(player) => Some(player),
            OptionalPlayerInfo::Unknown => None,
        }
    }
}

} // verus!
