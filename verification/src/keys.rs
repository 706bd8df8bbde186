//! The key scheme: where a player's profile lives in each schema generation,
//! how the keys of a generation are found, and how a key leads back to the
//! player.

use vstd::prelude::*;
use vstd::string::*;
use crate::codec::Generation;
use crate::ident::{hyphenated, uuid_parse, PlayerId};

verus! {

/// The namespace of the legacy generation.
pub const PROFILE_KEY_V1: &'static str = "tiers-v1-profile";

/// The namespace of the current generation.
pub const PROFILE_KEY_V2: &'static str = "tiers-v2-profile";

/// The key of the sorted set that holds the players upstream does not know,
/// each scored with the time at which the marker lapses.
pub const UNKNOWN_SET_KEY: &'static str = "tiers-v2-unknown";

/// How long an entry lives unless the store is configured otherwise: twelve
/// hours, in seconds.
pub const EXPIRATION_SECONDS: u64 = 43_200;

impl Generation {
    /// The namespace under which the generation keeps its profiles.
    pub open spec fn namespace_text(self) -> Seq<char> {
        match self {
            Generation::Legacy => PROFILE_KEY_V1@,
            Generation::Current => PROFILE_KEY_V2@,
        }
    }

    /// What every profile key of the generation starts with: the namespace
    /// and a colon.
    pub open spec fn prefix_text(self) -> Seq<char> {
        self.namespace_text() + seq![':']
    }

    /// The namespace under which the generation keeps its profiles.
    pub fn namespace(self) -> (r: &'static str)
        ensures
            r@ == self.namespace_text(),
    {
        match self {
            Generation::Legacy => PROFILE_KEY_V1,
            Generation::Current => PROFILE_KEY_V2,
        }
    }
}

/// The key of a player's profile: the generation's prefix, then the
/// identifier in its canonical text.
pub open spec fn key_text(generation: Generation, id: PlayerId) -> Seq<char> {
    generation.prefix_text() + hyphenated(id.0)
}

/// The player a key belongs to: the key must start with the generation's
/// prefix, and what follows must read as an identifier.
pub open spec fn key_id(generation: Generation, key: Seq<char>) -> Option<PlayerId> {
    let prefix = generation.prefix_text();
    if prefix.is_prefix_of(key) {
        match uuid_parse(key.skip(prefix.len() as int)) {
            Some(bits) => Some(PlayerId(bits)),
            None => None,
        }
    } else {
        None
    }
}

/// The time at which an entry written at `now` lapses. Times are seconds
/// since the epoch; the sum stops at the largest one.
pub open spec fn lapse(now: u64, ttl: u64) -> u64 {
    if now + ttl > u64::MAX {
        u64::MAX
    } else {
        (now + ttl) as u64
    }
}

/// What a scan for the generation's profile keys looks for.
pub fn scan_prefix(generation: Generation) -> (r: String)
    ensures
        r@ == generation.prefix_text(),
{
    proof {
        reveal_strlit(":");
    }
    let mut prefix = String::from_str(generation.namespace());
    prefix.append(":");
    assert(prefix@ =~= generation.prefix_text());
    prefix
}

/// The key under which the generation stores a player's profile. The key
/// leads back to the player.
pub fn profile_key(generation: Generation, id: PlayerId) -> (r: String)
    ensures
        r@ == key_text(generation, id),
        key_id(generation, r@) == Some(id),
{
    let mut key = scan_prefix(generation);
    let text = id.to_text();
    key.append(text.as_str());
    assert(key@.skip(generation.prefix_text().len() as int) =~= text@);
    key
}

/// Finds the player that a key of the generation belongs to, or `None` for a
/// key that is not of the generation's shape.
pub fn parse_profile_key(generation: Generation, key: &str) -> (r: Option<PlayerId>)
    ensures
        r == key_id(generation, key@),
{
    let prefix = scan_prefix(generation);
    let prefix_len = prefix.as_str().unicode_len();
    let key_len = key.unicode_len();
    if key_len < prefix_len {
        return None;
    }
    let head = key.substring_char(0, prefix_len).to_owned();
    if head != prefix {
        return None;
    }
    assert(key@.skip(prefix_len as int) =~= key@.subrange(prefix_len as int, key_len as int));
    PlayerId::parse(key.substring_char(prefix_len, key_len))
}

/// The time at which an entry written at `now` lapses.
pub fn expire_time(now: u64, ttl: u64) -> (r: u64)
    ensures
        r == lapse(now, ttl),
{
    now.saturating_add(ttl)
}

} // verus!
