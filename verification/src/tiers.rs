//! The profile data that the cache stores for a player.

use vstd::prelude::*;
use crate::ident::PlayerId;

verus! {

/// A player's standing in one game mode.
#[derive(Clone, Copy, Debug, PartialEq, Eq, Structural)]
pub struct Ranking {
    /// The tier number.
    pub tier: u8,
    /// The position within the tier; 0 is the high half.
    pub pos: u8,
    /// The best tier the player ever held, where upstream knows it.
    pub peak_tier: Option<u8>,
    /// The position within the peak tier, where upstream knows it.
    pub peak_pos: Option<u8>,
    /// When the ranking was attained, in seconds since the epoch.
    pub attained: u64,
    /// Whether the player has retired from the mode.
    pub retired: bool,
}

/// The ranking a player holds in the game mode of the given name.
#[derive(Clone, Debug, PartialEq, Eq)]
pub struct ModeRanking {
    pub mode: String,
    pub ranking: Ranking,
}

/// A badge shown on a profile.
#[derive(Clone, Debug, PartialEq, Eq)]
pub struct Badge {
    pub title: String,
    pub desc: String,
}

/// A profile as upstream reports it. A profile is never changed in part: a
/// later fetch replaces it whole.
#[derive(Clone, Debug, PartialEq, Eq)]
pub struct PlayerInfo {
    pub uuid: PlayerId,
    pub name: String,
    pub rankings: Vec<ModeRanking>,
    pub region: String,
    pub points: u64,
    pub overall: u64,
    pub badges: Vec<Badge>,
}

/// The mathematical value of a [`ModeRanking`].
pub struct ModeRankingView {
    pub mode: Seq<char>,
    pub ranking: Ranking,
}

/// The mathematical value of a [`Badge`].
pub struct BadgeView {
    pub title: Seq<char>,
    pub desc: Seq<char>,
}

/// The mathematical value of a [`PlayerInfo`].
pub struct PlayerInfoView {
    pub uuid: PlayerId,
    pub name: Seq<char>,
    pub rankings: Seq<ModeRankingView>,
    pub region: Seq<char>,
    pub points: u64,
    pub overall: u64,
    pub badges: Seq<BadgeView>,
}

impl View for ModeRanking {
    type V = ModeRankingView;

    open spec fn view(&self) -> ModeRankingView {
        ModeRankingView { mode: self.mode@, ranking: self.ranking }
    }
}

impl View for Badge {
    type V = BadgeView;

    open spec fn view(&self) -> BadgeView {
        BadgeView { title: self.title@, desc: self.desc@ }
    }
}

/// The values of a list of per-mode rankings.
pub open spec fn modes_view(s: Seq<ModeRanking>) -> Seq<ModeRankingView> {
    s.map_values(|m: ModeRanking| m@)
}

/// The values of a list of badges.
pub open spec fn badges_view(s: Seq<Badge>) -> Seq<BadgeView> {
    s.map_values(|b: Badge| b@)
}

/// The values of a list of profiles.
pub open spec fn infos_view(s: Seq<PlayerInfo>) -> Seq<PlayerInfoView> {
    s.map_values(|p: PlayerInfo| p@)
}

impl View for PlayerInfo {
    type V = PlayerInfoView;

    open spec fn view(&self) -> PlayerInfoView {
        PlayerInfoView {
            uuid: self.uuid,
            name: self.name@,
            rankings: modes_view(self.rankings@),
            region: self.region@,
            points: self.points,
            overall: self.overall,
            badges: badges_view(self.badges@),
        }
    }
}

impl PlayerInfoView {
    /// The ranking listed first for the mode of the given name.
    pub open spec fn ranking(self, mode: Seq<char>) -> Option<Ranking> {
        if exists|i: int| 0 <= i < self.rankings.len() && self.rankings[i].mode == mode {
            let first = choose|i: int|
                0 <= i < self.rankings.len() && self.rankings[i].mode == mode && forall|j: int|
                    0 <= j < i ==> self.rankings[j].mode != mode;
            Some(self.rankings[first].ranking)
        } else {
            None
        }
    }
}

impl Ranking {
    /// Whether the player stands in the high half of the tier.
    pub fn is_high(&self) -> (r: bool)
        ensures
            r == (self.pos == 0),
    {
        self.pos == 0
    }
}

impl PlayerInfo {
    /// Looks up the player's ranking in a game mode.
    pub fn ranking(&self, mode: &str) -> (r: Option<Ranking>)
        ensures
            r == self@.ranking(mode@),
    {
        let wanted = mode.to_owned();
        let mut i: usize = 0;
        while i < self.rankings.len()
            invariant
                i <= self.rankings.len(),
                wanted@ == mode@,
                forall|j: int| 0 <= j < i ==> self@.rankings[j].mode != mode@,
            decreases self.rankings.len() - i,
        {
            if self.rankings[i].mode == wanted {
                proof {
                    let k = i as int;
                    assert(self@.rankings[k].mode == mode@);
                    let first = choose|i: int|
                        0 <= i < self@.rankings.len() && self@.rankings[i].mode == mode@
                            && forall|j: int| 0 <= j < i ==> self@.rankings[j].mode != mode@;
                    assert(first == k);
                }
                return Some(self.rankings[i].ranking);
            }
            i += 1;
        }
        None
    }
}

} // verus!
