//! The tier list as the tier-list site publishes it, and what is derived from
//! it for display.

use vstd::prelude::*;
use vstd::string::*;

verus! {

/// A project on the mod-hosting site, with its download count.
#[derive(Clone, Debug, PartialEq, Eq)]
pub struct ModrinthProject {
    pub slug: String,
    pub downloads: usize,
}

/// A badge in the format of the badge service.
#[derive(Clone, Debug, PartialEq, Eq)]
pub struct ShieldsBadge {
    pub schema_version: u8,
    pub label: String,
    pub message: String,
    pub color: String,
    pub named_logo: String,
}

/// A player of the tier list.
#[derive(Clone, Debug, PartialEq, Eq)]
pub struct PlayerInfo {
    pub name: String,
    pub region: String,
    pub points: u64,
}

/// A player of the tier list with the tier the player stands in.
#[derive(Clone, Debug, PartialEq, Eq)]
pub struct TieredPlayerInfo {
    pub name: String,
    pub region: String,
    pub points: u64,
    pub tier: u8,
    pub high: bool,
}

/// The tier list: the tiers from the best down, each a list of player keys
/// with a position (0 for the high half of the tier), and the players by key.
///
/// `players` is a list of pairs; the first pair with a key is the one that a
/// lookup finds.
#[derive(Clone, Debug, PartialEq, Eq)]
pub struct TierList {
    pub rankings: Vec<Vec<(String, u8)>>,
    pub players: Vec<(String, PlayerInfo)>,
}

/// The mathematical value of a [`TieredPlayerInfo`].
pub struct TieredPlayerInfoView {
    pub name: Seq<char>,
    pub region: Seq<char>,
    pub points: u64,
    pub tier: u8,
    pub high: bool,
}

impl View for TieredPlayerInfo {
    type V = TieredPlayerInfoView;

    open spec fn view(&self) -> TieredPlayerInfoView {
        TieredPlayerInfoView {
            name: self.name@,
            region: self.region@,
            points: self.points,
            tier: self.tier,
            high: self.high,
        }
    }
}

/// The values of a list of tiered players.
pub open spec fn tiered_view(s: Seq<TieredPlayerInfo>) -> Seq<TieredPlayerInfoView> {
    s.map_values(|t: TieredPlayerInfo| t@)
}

/// The keys and flags of one formatted tier.
pub open spec fn flags_view(s: Seq<(String, bool)>) -> Seq<(Seq<char>, bool)> {
    s.map_values(|e: (String, bool)| (e.0@, e.1))
}

/// Whether the entry at `i` is the last one of its key in the tier: the one
/// that counts.
pub open spec fn counts(tier: Seq<(String, u8)>, i: int) -> bool {
    forall|j: int| i < j < tier.len() ==> tier[j].0@ != tier[i].0@
}

/// The first `n` entries of a tier as a map from key to "high half": each key
/// once, with the flag of its last entry.
pub open spec fn formatted_upto(tier: Seq<(String, u8)>, n: nat) -> Seq<(Seq<char>, bool)>
    decreases n,
{
    if n == 0 {
        Seq::empty()
    } else {
        let before = formatted_upto(tier, (n - 1) as nat);
        if counts(tier, n - 1) {
            before.push((tier[n - 1].0@, tier[n - 1].1 == 0))
        } else {
            before
        }
    }
}

/// A tier as a map from key to "high half".
pub open spec fn formatted(tier: Seq<(String, u8)>) -> Seq<(Seq<char>, bool)> {
    formatted_upto(tier, tier.len())
}

/// The position of the first pair with the given key, if there is one.
pub open spec fn found_at(players: Seq<(String, PlayerInfo)>, key: Seq<char>, i: int) -> bool {
    &&& 0 <= i < players.len()
    &&& players[i].0@ == key
    &&& forall|j: int| 0 <= j < i ==> players[j].0@ != key
}

/// The number of a tier, counted from one, as far as a byte holds it.
pub open spec fn tier_number(index: int) -> u8 {
    ((index + 1) % 256) as u8
}

/// The tiered players that the first `m` entries of a formatted tier give:
/// one for each entry whose key is a player's.
pub open spec fn tier_items(
    players: Seq<(String, PlayerInfo)>,
    flags: Seq<(Seq<char>, bool)>,
    index: int,
    m: nat,
) -> Seq<TieredPlayerInfoView>
    decreases m,
{
    if m == 0 {
        Seq::empty()
    } else {
        let before = tier_items(players, flags, index, (m - 1) as nat);
        let (key, high) = flags[m - 1];
        if exists|i: int| found_at(players, key, i) {
            let i = choose|i: int| found_at(players, key, i);
            before.push(
                TieredPlayerInfoView {
                    name: players[i].1.name@,
                    region: players[i].1.region@,
                    points: players[i].1.points,
                    tier: tier_number(index),
                    high,
                },
            )
        } else {
            before
        }
    }
}

/// The tiered players of the first `n` tiers.
pub open spec fn tiered_upto(
    rankings: Seq<Vec<(String, u8)>>,
    players: Seq<(String, PlayerInfo)>,
    n: nat,
) -> Seq<TieredPlayerInfoView>
    decreases n,
{
    if n == 0 {
        Seq::empty()
    } else {
        let flags = formatted(rankings[n - 1]@);
        tiered_upto(rankings, players, (n - 1) as nat) + tier_items(
            players,
            flags,
            n - 1,
            flags.len(),
        )
    }
}

/// Every key of a tier is in the formatted tier exactly once, with the flag
/// of its last entry.
pub proof fn lemma_formatted(tier: Seq<(String, u8)>, n: nat)
    requires
        n <= tier.len(),
    ensures
        forall|e: (Seq<char>, bool)| #[trigger]
            formatted_upto(tier, n).contains(e) <==> exists|i: int|
                0 <= i < n && counts(tier, i) && e == (tier[i].0@, tier[i].1 == 0),
        forall|a: int, b: int|
            0 <= a < b < formatted_upto(tier, n).len() ==> (#[trigger] formatted_upto(
                tier,
                n,
            )[a]).0 != (#[trigger] formatted_upto(tier, n)[b]).0,
    decreases n,
{
    let now = formatted_upto(tier, n);
    if n == 0 {
    } else {
        let before = formatted_upto(tier, (n - 1) as nat);
        lemma_formatted(tier, (n - 1) as nat);
        let last = (tier[n - 1].0@, tier[n - 1].1 == 0);
        assert forall|e: (Seq<char>, bool)| #[trigger] now.contains(e) <==> exists|i: int|
            0 <= i < n && counts(tier, i) && e == (tier[i].0@, tier[i].1 == 0) by {
            if now.contains(e) {
                let at = choose|at: int| 0 <= at < now.len() && now[at] == e;
                if at < before.len() {
                    assert(before[at] == e);
                    assert(before.contains(e));
                } else {
                    assert(counts(tier, n - 1) && e == last);
                }
            }
            if exists|i: int| 0 <= i < n && counts(tier, i) && e == (tier[i].0@, tier[i].1 == 0) {
                let i = choose|i: int|
                    0 <= i < n && counts(tier, i) && e == (tier[i].0@, tier[i].1 == 0);
                if i < n - 1 {
                    assert(before.contains(e));
                    let at = choose|at: int| 0 <= at < before.len() && before[at] == e;
                    assert(now[at] == e);
                } else {
                    assert(now[now.len() - 1] == e);
                }
            }
        }
        if counts(tier, n - 1) {
            assert forall|a: int, b: int| 0 <= a < b < now.len() implies (#[trigger] now[a]).0 != (
            #[trigger] now[b]).0 by {
                if b < before.len() {
                    assert(before[a].0 != before[b].0);
                } else {
                    assert(before.contains(before[a]));
                    let i = choose|i: int|
                        0 <= i < n - 1 && counts(tier, i) && before[a] == (
                            tier[i].0@,
                            tier[i].1 == 0,
                        );
                    assert(tier[n - 1].0@ != tier[i].0@);
                }
            }
        }
    }
}

/// A player as a tiered player: in the tier at `index`, in its high half or
/// not.
pub open spec fn tiered_as(player: PlayerInfo, index: int, high: bool) -> TieredPlayerInfoView {
    TieredPlayerInfoView {
        name: player.name@,
        region: player.region@,
        points: player.points,
        tier: tier_number(index),
        high,
    }
}

/// Whether `x` is what the entry at `e` of a formatted tier gives: the key of
/// the entry is that of the player at `i`, the first of that key.
pub open spec fn gives(
    players: Seq<(String, PlayerInfo)>,
    flags: Seq<(Seq<char>, bool)>,
    index: int,
    e: int,
    i: int,
    x: TieredPlayerInfoView,
) -> bool {
    &&& 0 <= e < flags.len()
    &&& found_at(players, flags[e].0, i)
    &&& x == tiered_as(players[i].1, index, flags[e].1)
}

/// Whether `x` stands for the entry at `e` of the tier at `t`: the entry is
/// the one that counts for its key, the key is that of the player at `i`,
/// the first of that key, and `x` is that player with the number of the tier
/// and the half that the entry names.
pub open spec fn placed(
    rankings: Seq<Vec<(String, u8)>>,
    players: Seq<(String, PlayerInfo)>,
    t: int,
    e: int,
    i: int,
    x: TieredPlayerInfoView,
) -> bool {
    &&& 0 <= t < rankings.len()
    &&& 0 <= e < rankings[t]@.len()
    &&& counts(rankings[t]@, e)
    &&& found_at(players, rankings[t]@[e].0@, i)
    &&& x == tiered_as(players[i].1, t, rankings[t]@[e].1 == 0)
}

/// The tiered players of a formatted tier are what its entries give.
pub proof fn lemma_tier_items(
    players: Seq<(String, PlayerInfo)>,
    flags: Seq<(Seq<char>, bool)>,
    index: int,
    m: nat,
)
    requires
        m <= flags.len(),
    ensures
        forall|x: TieredPlayerInfoView| #[trigger]
            tier_items(players, flags, index, m).contains(x) <==> exists|e: int, i: int|
                e < m && gives(players, flags, index, e, i, x),
    decreases m,
{
    let now = tier_items(players, flags, index, m);
    if m == 0 {
    } else {
        let before = tier_items(players, flags, index, (m - 1) as nat);
        lemma_tier_items(players, flags, index, (m - 1) as nat);
        let (key, high) = flags[m - 1];
        assert forall|x: TieredPlayerInfoView| #[trigger] now.contains(x) <==> exists|
            e: int,
            i: int,
        | e < m && gives(players, flags, index, e, i, x) by {
            if now.contains(x) {
                let at = choose|at: int| 0 <= at < now.len() && now[at] == x;
                if at < before.len() {
                    assert(before[at] == x);
                    assert(before.contains(x));
                    let (e, i) = choose|e: int, i: int|
                        e < m - 1 && gives(players, flags, index, e, i, x);
                    assert(e < m && gives(players, flags, index, e, i, x));
                } else {
                    let i = choose|i: int| found_at(players, key, i);
                    assert(gives(players, flags, index, m - 1, i, x));
                }
            }
            if exists|e: int, i: int| e < m && gives(players, flags, index, e, i, x) {
                let (e, i) = choose|e: int, i: int|
                    e < m && gives(players, flags, index, e, i, x);
                if e < m - 1 {
                    assert(before.contains(x));
                    let at = choose|at: int| 0 <= at < before.len() && before[at] == x;
                    assert(now[at] == x);
                } else {
                    let first = choose|c: int| found_at(players, key, c);
                    assert(first == i) by {
                        if first < i {
                            assert(players[first].0@ != key);
                        } else if i < first {
                            assert(players[i].0@ != key);
                        }
                    }
                    assert(now[now.len() - 1] == x);
                }
            }
        }
    }
}

/// What `tiered_upto` lists, said directly: a tiered player stands in the
/// list of the first `n` tiers exactly if it stands for an entry of one of
/// them, an entry that counts for its key and whose key is a player's.
pub proof fn lemma_tiered(
    rankings: Seq<Vec<(String, u8)>>,
    players: Seq<(String, PlayerInfo)>,
    n: nat,
)
    requires
        n <= rankings.len(),
    ensures
        forall|x: TieredPlayerInfoView| #[trigger]
            tiered_upto(rankings, players, n).contains(x) <==> exists|t: int, e: int, i: int|
                t < n && placed(rankings, players, t, e, i, x),
    decreases n,
{
    let now = tiered_upto(rankings, players, n);
    if n == 0 {
    } else {
        let last: int = n - 1;
        let tier = rankings[last]@;
        let flags = formatted(tier);
        let before = tiered_upto(rankings, players, (n - 1) as nat);
        let here = tier_items(players, flags, last, flags.len());
        lemma_tiered(rankings, players, (n - 1) as nat);
        lemma_tier_items(players, flags, last, flags.len());
        lemma_formatted(tier, tier.len());
        assert forall|x: TieredPlayerInfoView| #[trigger] now.contains(x) <==> exists|
            t: int,
            e: int,
            i: int,
        | t < n && placed(rankings, players, t, e, i, x) by {
            if now.contains(x) {
                let at = choose|at: int| 0 <= at < now.len() && now[at] == x;
                if at < before.len() {
                    assert(before[at] == x);
                    assert(before.contains(x));
                    let (t, e, i) = choose|t: int, e: int, i: int|
                        t < n - 1 && placed(rankings, players, t, e, i, x);
                    assert(t < n && placed(rankings, players, t, e, i, x));
                } else {
                    assert(here[at - before.len()] == x);
                    assert(here.contains(x));
                    let (f, i) = choose|f: int, i: int|
                        f < flags.len() && gives(players, flags, last, f, i, x);
                    assert(flags.contains(flags[f]));
                    let e = choose|e: int|
                        0 <= e < tier.len() && counts(tier, e) && flags[f] == (
                            tier[e].0@,
                            tier[e].1 == 0,
                        );
                    assert(placed(rankings, players, last, e, i, x));
                }
            }
            if exists|t: int, e: int, i: int| t < n && placed(rankings, players, t, e, i, x) {
                let (t, e, i) = choose|t: int, e: int, i: int|
                    t < n && placed(rankings, players, t, e, i, x);
                if t < n - 1 {
                    assert(before.contains(x));
                    let at = choose|at: int| 0 <= at < before.len() && before[at] == x;
                    assert(now[at] == x);
                } else {
                    let entry = (tier[e].0@, tier[e].1 == 0);
                    assert(flags.contains(entry));
                    let f = choose|f: int| 0 <= f < flags.len() && flags[f] == entry;
                    assert(gives(players, flags, last, f, i, x));
                    assert(here.contains(x));
                    let at = choose|at: int| 0 <= at < here.len() && here[at] == x;
                    assert(now[before.len() + at] == x);
                }
            }
        }
    }
}

/// The downloads of the first `n` projects, added up.
pub open spec fn downloads_upto(projects: Seq<ModrinthProject>, n: nat) -> nat
    decreases n,
{
    if n == 0 {
        0
    } else {
        downloads_upto(projects, (n - 1) as nat) + projects[n - 1].downloads as nat
    }
}

/// The downloads of all the projects, or `None` where the sum does not fit.
pub fn total_downloads(projects: &Vec<ModrinthProject>) -> (r: Option<usize>)
    ensures
        r == if downloads_upto(projects@, projects@.len()) <= usize::MAX {
            Some(downloads_upto(projects@, projects@.len()) as usize)
        } else {
            None
        },
{
    let mut sum: usize = 0;
    let mut i: usize = 0;
    while i < projects.len()
        invariant
            i <= projects.len(),
            sum == downloads_upto(projects@, i as nat),
        decreases projects.len() - i,
    {
        match sum.checked_add(projects[i].downloads) {
            Some(next) => {
                sum = next;
            },
            None => {
                proof {
                    lemma_downloads_grow(projects@, (i + 1) as nat, projects@.len());
                }
                return None;
            },
        }
        i += 1;
    }
    Some(sum)
}

/// The sum of more projects is no smaller.
pub proof fn lemma_downloads_grow(projects: Seq<ModrinthProject>, n: nat, m: nat)
    requires
        n <= m,
    ensures
        downloads_upto(projects, n) <= downloads_upto(projects, m),
    decreases m,
{
    if n < m {
        lemma_downloads_grow(projects, n, (m - 1) as nat);
    }
}

impl ShieldsBadge {
    /// The badge that shows a download count.
    pub fn downloads(message: String) -> (r: ShieldsBadge)
        ensures
            r.schema_version == 1,
            r.label@ == "downloads"@,
            r.message == message,
            r.color@ == "brightgreen"@,
            r.named_logo@ == "modrinth"@,
    {
        ShieldsBadge {
            schema_version: 1,
            label: String::from_str("downloads"),
            message,
            color: String::from_str("brightgreen"),
            named_logo: String::from_str("modrinth"),
        }
    }
}

impl TierList {
    /// Finds a player by key: the first pair with the key.
    pub fn player(&self, key: &String) -> (r: Option<usize>)
        ensures
            match r {
                Some(i) => found_at(self.players@, key@, i as int),
                None => !exists|i: int| found_at(self.players@, key@, i),
            },
    {
        let mut i: usize = 0;
        while i < self.players.len()
            invariant
                i <= self.players.len(),
                forall|j: int| 0 <= j < i ==> self.players@[j].0@ != key@,
            decreases self.players.len() - i,
        {
            if self.players[i].0 == *key {
                return Some(i);
            }
            i += 1;
        }
        None
    }

    /// Each tier as a map from player key to "stands in the high half". Where
    /// a tier names a key more than once, the last entry counts.
    pub fn get_formatted_rankings(&self) -> (r: Vec<Vec<(String, bool)>>)
        ensures
            r@.len() == self.rankings@.len(),
            forall|t: int|
                0 <= t < r@.len() ==> flags_view(#[trigger] r@[t]@) == formatted(
                    self.rankings@[t]@,
                ),
    {
        let mut out: Vec<Vec<(String, bool)>> = Vec::new();
        let mut t: usize = 0;
        while t < self.rankings.len()
            invariant
                t <= self.rankings.len(),
                out@.len() == t,
                forall|u: int|
                    0 <= u < t ==> flags_view(#[trigger] out@[u]@) == formatted(
                        self.rankings@[u]@,
                    ),
            decreases self.rankings.len() - t,
        {
            let tier = &self.rankings[t];
            let mut flags: Vec<(String, bool)> = Vec::new();
            let mut i: usize = 0;
            proof {
                assert(flags_view(flags@) =~= formatted_upto(tier@, 0));
            }
            while i < tier.len()
                invariant
                    i <= tier.len(),
                    flags_view(flags@) == formatted_upto(tier@, i as nat),
                decreases tier.len() - i,
            {
                let mut later: usize = i + 1;
                let mut last = true;
                while later < tier.len()
                    invariant
                        i < later <= tier.len(),
                        last <==> forall|j: int| i < j < later ==> tier@[j].0@ != tier@[i as int].0@,
                    decreases tier.len() - later,
                {
                    if tier[later].0 == tier[i].0 {
                        last = false;
                    }
                    later += 1;
                }
                if last {
                    let ghost before = flags_view(flags@);
                    flags.push((tier[i].0.clone(), tier[i].1 == 0));
                    proof {
                        assert(flags_view(flags@) =~= before.push(
                            (tier@[i as int].0@, tier@[i as int].1 == 0),
                        ));
                    }
                }
                i += 1;
            }
            out.push(flags);
            t += 1;
        }
        out
    }

    /// The players of the tier list with their tiers: tier by tier from the
    /// best down, and within a tier in the order of the formatted tier. A key
    /// that is no player's is passed over. Tiers count from one; the number
    /// is kept as far as a byte holds it.
    pub fn into_tiered_info(self) -> (r: Vec<TieredPlayerInfo>)
        ensures
            tiered_view(r@) == tiered_upto(
                self.rankings@,
                self.players@,
                self.rankings@.len(),
            ),
    {
        let rankings = self.get_formatted_rankings();
        let mut tiered: Vec<TieredPlayerInfo> = Vec::new();
        let mut t: usize = 0;
        proof {
            assert(tiered_view(tiered@) =~= tiered_upto(self.rankings@, self.players@, 0));
        }
        while t < rankings.len()
            invariant
                t <= rankings.len(),
                rankings@.len() == self.rankings@.len(),
                forall|u: int|
                    0 <= u < rankings@.len() ==> flags_view(#[trigger] rankings@[u]@) == formatted(
                        self.rankings@[u]@,
                    ),
                tiered_view(tiered@) == tiered_upto(self.rankings@, self.players@, t as nat),
            decreases rankings.len() - t,
        {
            let ranks = &rankings[t];
            let ghost flags = formatted(self.rankings@[t as int]@);
            let ghost start = tiered_view(tiered@);
            let number: u8 = ((t + 1) % 256) as u8;
            let mut i: usize = 0;
            proof {
                assert(flags_view(ranks@) == flags);
                assert(start + tier_items(self.players@, flags, t as int, 0) =~= start);
            }
            while i < ranks.len()
                invariant
                    i <= ranks.len(),
                    flags_view(ranks@) == flags,
                    number == tier_number(t as int),
                    tiered_view(tiered@) == start + tier_items(
                        self.players@,
                        flags,
                        t as int,
                        i as nat,
                    ),
                decreases ranks.len() - i,
            {
                let ghost before = tiered_view(tiered@);
                let ghost items = tier_items(self.players@, flags, t as int, i as nat);
                proof {
                    assert(flags[i as int] == (ranks@[i as int].0@, ranks@[i as int].1));
                }
                match self.player(&ranks[i].0) {
                    Some(at) => {
                        let info = &self.players[at].1;
                        proof {
                            let key = ranks@[i as int].0@;
                            let chosen = choose|c: int| found_at(self.players@, key, c);
                            assert(chosen == at) by {
                                if chosen < at {
                                    assert(self.players@[chosen].0@ != key);
                                } else if at < chosen {
                                    assert(self.players@[at as int].0@ != key);
                                }
                            }
                        }
                        let item = TieredPlayerInfo {
                            name: info.name.clone(),
                            region: info.region.clone(),
                            points: info.points,
                            tier: number,
                            high: ranks[i].1,
                        };
                        tiered.push(item);
                        proof {
                            assert(tiered_view(tiered@) =~= before.push(item@));
                            assert(before.push(item@) =~= start + items.push(item@));
                        }
                    },
                    None => {},
                }
                i += 1;
            }
            proof {
                assert(flags.len() == ranks@.len());
            }
            t += 1;
        }
        tiered
    }
}

} // verus!
