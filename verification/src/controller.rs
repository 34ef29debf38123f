//! The voice presence controller: decides, for each voice-state event of a
//! guild, whether to leave the transport's channel, whether to play the
//! dedicated pairing sound, and whether to announce the user.
//!
//! The decision is a pure function of the event and of four externally
//! supplied facts (the permission capability, channel occupancy, and the
//! pairing configuration); the embedding program performs the transport
//! actions it prescribes.

use vstd::prelude::*;

verus! {

/// A user's previous voice state, when one existed.
#[derive(Clone, Copy, PartialEq, Eq, Structural, Debug)]
pub struct PrevVoice {
    /// The guild of the previous state, if any.
    pub guild: Option<u64>,
    /// The channel the user occupied, if any.
    pub channel: Option<u64>,
    /// Whether the user was self-muted.
    pub self_mute: bool,
}

/// One voice-state event: the user's new state together with the previous
/// one, if the platform supplied it.
#[derive(Clone, Copy, PartialEq, Eq, Structural, Debug)]
pub struct VoiceEvent {
    pub user_id: u64,
    /// Whether the account is bot-controlled; bot events are ignored.
    pub user_is_bot: bool,
    /// The guild of the new state; events without one are ignored.
    pub guild: Option<u64>,
    /// The previous state; `None` on the user's first appearance.
    pub prev: Option<PrevVoice>,
    /// The channel of the new state, if the user is in one.
    pub new_channel: Option<u64>,
    /// Whether the user is self-muted in the new state.
    pub new_self_mute: bool,
}

/// Externally supplied facts about the event's surroundings.
#[derive(Clone, Copy, PartialEq, Eq, Structural, Debug)]
pub struct EventEnv {
    /// The permission capability: whether the transport may connect to the
    /// event's new channel.
    pub can_connect: bool,
    /// Whether every remaining occupant of the channel the transport
    /// currently occupies in the previous state's guild is bot-controlled.
    pub bot_channel_emptied: bool,
    /// Whether a pairing entry matches: the user is one of a designated
    /// pair whose partner already occupies the event's new channel (see
    /// `pairing_sound`).
    pub pairing_matched: bool,
}

/// What the controller does with one event.
#[derive(Clone, Copy, PartialEq, Eq, Structural, Debug)]
pub struct Decision {
    /// Disconnect from the previous state's guild and stop.
    pub leave_previous: bool,
    /// Play the dedicated pairing sound in the new channel.
    pub play_pairing: bool,
    /// Resolve an announcement for the user and play it in the new channel.
    pub announce: bool,
}

pub open spec fn no_action() -> Decision {
    Decision { leave_previous: false, play_pairing: false, announce: false }
}

/// The controller's decision for one event.
///
/// Events of bot accounts or without a guild are ignored. If the user had a
/// previous state and the new state leaves the transport's reach (no new
/// channel, another guild, or no permission to connect), and every remaining
/// occupant of the transport's channel is bot-controlled, the transport
/// leaves and nothing else happens. Otherwise, with a connectable new
/// channel: the pairing sound plays when a designated user first appears in
/// a channel a partner occupies, and an announcement plays when the user
/// shows up unmuted having previously been muted, absent, or in another
/// channel. A self-muted new state never announces.
pub open spec fn spec_decide(e: VoiceEvent, env: EventEnv) -> Decision {
    if e.user_is_bot || e.guild is None {
        no_action()
    } else {
        let leave = e.prev is Some && (e.new_channel is None || e.prev->Some_0.guild != e.guild
            || !env.can_connect) && e.prev->Some_0.guild is Some && env.bot_channel_emptied;
        if leave {
            Decision { leave_previous: true, play_pairing: false, announce: false }
        } else if e.new_channel is None || !env.can_connect {
            no_action()
        } else {
            let play_pairing = e.prev is None && env.pairing_matched;
            let announce = !e.new_self_mute && (e.prev is None || e.prev->Some_0.self_mute
                || e.prev->Some_0.channel != e.new_channel);
            Decision { leave_previous: false, play_pairing, announce }
        }
    }
}

/// Decide what to do with one voice-state event.
pub fn decide(e: VoiceEvent, env: EventEnv) -> (d: Decision)
    ensures
        d == spec_decide(e, env),
{
    if e.user_is_bot || e.guild.is_none() {
        return Decision { leave_previous: false, play_pairing: false, announce: false };
    }
    if let Some(prev) = e.prev {
        let out_of_reach = e.new_channel.is_none() || prev.guild != e.guild || !env.can_connect;
        if out_of_reach && prev.guild.is_some() && env.bot_channel_emptied {
            return Decision { leave_previous: true, play_pairing: false, announce: false };
        }
    }
    if e.new_channel.is_none() || !env.can_connect {
        return Decision { leave_previous: false, play_pairing: false, announce: false };
    }
    let play_pairing = e.prev.is_none() && env.pairing_matched;
    let announce = !e.new_self_mute && (match e.prev {
        None => true,
        Some(prev) => prev.self_mute || prev.channel != e.new_channel,
    });
    Decision { leave_previous: false, play_pairing, announce }
}

/// A self-muted new state never triggers an announcement, whatever the
/// event's history and surroundings.
pub proof fn lemma_mute_never_announces(e: VoiceEvent, env: EventEnv)
    requires
        e.new_self_mute,
    ensures
        !spec_decide(e, env).announce,
{
}

/// Unmuting, muting and unmuting again in one channel announces exactly
/// twice: both unmute transitions announce, the mute transition does not.
pub proof fn lemma_unmute_mute_unmute(user: u64, guild: u64, channel: u64, env: EventEnv)
    requires
        env.can_connect,
    ensures
        ({
            let unmute = VoiceEvent {
                user_id: user,
                user_is_bot: false,
                guild: Some(guild),
                prev: Some(
                    PrevVoice { guild: Some(guild), channel: Some(channel), self_mute: true },
                ),
                new_channel: Some(channel),
                new_self_mute: false,
            };
            let mute = VoiceEvent {
                user_id: user,
                user_is_bot: false,
                guild: Some(guild),
                prev: Some(
                    PrevVoice { guild: Some(guild), channel: Some(channel), self_mute: false },
                ),
                new_channel: Some(channel),
                new_self_mute: true,
            };
            spec_decide(unmute, env).announce && !spec_decide(mute, env).announce && !spec_decide(
                unmute,
                env,
            ).leave_previous && !spec_decide(mute, env).leave_previous
        }),
{
}

/// One configured pairing: when either of the two identities first appears
/// in a channel the other occupies, the named sound plays instead of
/// nothing, ahead of the general unmute rule.
pub struct PairingEntry {
    pub first: u64,
    pub second: u64,
    pub sound: String,
}

/// Whether one pairing entry fires for `user` appearing in `channel`: the
/// user is one of the entry's identities and the other occupies `channel`.
pub open spec fn spec_pairing_fires(
    entry: PairingEntry,
    slots: Seq<VoiceSlot>,
    user: u64,
    channel: u64,
) -> bool {
    ||| (user == entry.first && spec_occupies(slots, entry.second, channel))
    ||| (user == entry.second && spec_occupies(slots, entry.first, channel))
}

/// Whether some slot places `who` in `channel`.
pub open spec fn spec_occupies(slots: Seq<VoiceSlot>, who: u64, channel: u64) -> bool {
    exists|i: int|
        0 <= i < slots.len() && slots[i].user_id == who && slots[i].channel == Some(channel)
}

fn occupies(slots: &Vec<VoiceSlot>, who: u64, channel: u64) -> (r: bool)
    ensures
        r == spec_occupies(slots@, who, channel),
{
    let n = slots.len();
    let mut i: usize = 0;
    while i < n
        invariant
            n == slots@.len(),
            i <= n,
            forall|j: int|
                0 <= j < i ==> !(slots@[j].user_id == who && slots@[j].channel == Some(channel)),
        decreases n - i,
    {
        let slot = &slots[i];
        if slot.user_id == who {
            if let Some(c) = slot.channel {
                if c == channel {
                    return true;
                }
            }
        }
        i = i + 1;
    }
    false
}

/// The sound of the first configured pairing that fires for `user`
/// appearing in `channel`, in configuration order; `None` when none does.
#[verifier::loop_isolation(false)]
pub fn pairing_sound(
    entries: &Vec<PairingEntry>,
    slots: &Vec<VoiceSlot>,
    user: u64,
    channel: u64,
) -> (r: Option<String>)
    ensures
        match r {
            Some(sound) => exists|i: int|
                {
                    &&& 0 <= i < entries@.len()
                    &&& spec_pairing_fires(entries@[i], slots@, user, channel)
                    &&& sound@ == entries@[i].sound@
                    &&& forall|j: int|
                        0 <= j < i ==> !spec_pairing_fires(entries@[j], slots@, user, channel)
                },
            None => forall|i: int|
                0 <= i < entries@.len() ==> !spec_pairing_fires(entries@[i], slots@, user, channel),
        },
{
    let n = entries.len();
    let mut i: usize = 0;
    while i < n
        invariant
            i <= n,
            forall|j: int|
                0 <= j < i ==> !spec_pairing_fires(entries@[j], slots@, user, channel),
        decreases n - i,
    {
        let entry = &entries[i];
        let fires = if entry.first == user {
            occupies(slots, entry.second, channel)
        } else if entry.second == user {
            occupies(slots, entry.first, channel)
        } else {
            false
        };
        if fires {
            return Some(entry.sound.clone());
        }
        i = i + 1;
    }
    None
}

/// Voice states of a guild's occupants, as the platform reports them: one
/// slot per user.
#[derive(Clone, Copy, PartialEq, Eq, Structural, Debug)]
pub struct VoiceSlot {
    pub user_id: u64,
    pub is_bot: bool,
    pub channel: Option<u64>,
}

pub open spec fn slot_users_unique(slots: Seq<VoiceSlot>) -> bool {
    forall|i: int, j: int| 0 <= i < j < slots.len() ==> slots[i].user_id != slots[j].user_id
}

/// Whether the channel the bot occupies holds only bot-controlled accounts:
/// false when the bot has no voice state or occupies no channel.
pub open spec fn spec_bot_voice_channel_is_empty(slots: Seq<VoiceSlot>, bot_user: u64) -> bool {
    if exists|i: int|
        0 <= i < slots.len() && slots[i].user_id == bot_user && slots[i].channel is Some {
        let i = choose|i: int|
            0 <= i < slots.len() && slots[i].user_id == bot_user && slots[i].channel is Some;
        forall|j: int|
            0 <= j < slots.len() && slots[j].channel == slots[i].channel ==> slots[j].is_bot
    } else {
        false
    }
}

/// Whether every occupant of the channel the bot occupies is bot-controlled.
/// Returns false when the bot itself occupies no channel.
#[verifier::loop_isolation(false)]
pub fn bot_voice_channel_is_empty(slots: &Vec<VoiceSlot>, bot_user: u64) -> (r: bool)
    requires
        slot_users_unique(slots@),
    ensures
        r == spec_bot_voice_channel_is_empty(slots@, bot_user),
{
    let n = slots.len();
    let mut i: usize = 0;
    while i < n
        invariant
            i <= n,
            forall|j: int|
                0 <= j < i ==> !(slots@[j].user_id == bot_user && slots@[j].channel is Some),
        decreases n - i,
    {
        if slots[i].user_id == bot_user && slots[i].channel.is_some() {
            proof {
                assert(slots@[i as int].user_id == bot_user && slots@[i as int].channel is Some);
                let k = choose|k: int|
                    0 <= k < slots@.len() && slots@[k].user_id == bot_user
                        && slots@[k].channel is Some;
                assert(slots@[k].user_id == slots@[i as int].user_id);
                assert(k == i as int);
            }
            let bot_channel = slots[i].channel;
            let mut j: usize = 0;
            while j < n
                invariant
                    j <= n,
                    bot_channel == slots@[i as int].channel,
                    forall|x: int|
                        0 <= x < j && slots@[x].channel == bot_channel ==> slots@[x].is_bot,
                decreases n - j,
            {
                if slots[j].channel == bot_channel && !slots[j].is_bot {
                    return false;
                }
                j = j + 1;
            }
            return true;
        }
        i = i + 1;
    }
    false
}

} // verus!
