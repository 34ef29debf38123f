use announcer::controller::{
    bot_voice_channel_is_empty, decide, pairing_sound, Decision, EventEnv, PairingEntry,
    PrevVoice, VoiceEvent, VoiceSlot,
};

fn env() -> EventEnv {
    EventEnv {
        can_connect: true,
        bot_channel_emptied: false,
        pairing_matched: false,
    }
}

fn in_channel(channel: u64, self_mute: bool) -> Option<PrevVoice> {
    Some(PrevVoice { guild: Some(1), channel: Some(channel), self_mute })
}

fn event(prev: Option<PrevVoice>, new_channel: Option<u64>, new_self_mute: bool) -> VoiceEvent {
    VoiceEvent {
        user_id: 5,
        user_is_bot: false,
        guild: Some(1),
        prev,
        new_channel,
        new_self_mute,
    }
}

#[test]
fn unmute_mute_unmute_announces_exactly_twice() {
    let unmute = event(in_channel(100, true), Some(100), false);
    let mute = event(in_channel(100, false), Some(100), true);

    let mut announcements = 0;
    for e in [unmute, mute, unmute] {
        if decide(e, env()).announce {
            announcements += 1;
        }
    }
    assert_eq!(announcements, 2, "a mute transition alone never triggers playback");
}

#[test]
fn muted_new_state_never_announces() {
    for prev in [None, in_channel(100, true), in_channel(100, false), in_channel(200, false)] {
        let d = decide(event(prev, Some(100), true), env());
        assert!(!d.announce);
    }
}

#[test]
fn first_appearance_unmuted_announces() {
    let d = decide(event(None, Some(100), false), env());
    assert!(d.announce);
    assert!(!d.leave_previous);
}

#[test]
fn channel_change_unmuted_announces() {
    let d = decide(event(in_channel(200, false), Some(100), false), env());
    assert!(d.announce);
}

#[test]
fn staying_unmuted_in_same_channel_does_not_announce() {
    let d = decide(event(in_channel(100, false), Some(100), false), env());
    assert!(!d.announce);
}

#[test]
fn bots_and_guildless_events_are_ignored() {
    let nothing = Decision { leave_previous: false, play_pairing: false, announce: false };
    let mut bot = event(None, Some(100), false);
    bot.user_is_bot = true;
    assert_eq!(decide(bot, env()), nothing);
    let mut guildless = event(None, Some(100), false);
    guildless.guild = None;
    assert_eq!(decide(guildless, env()), nothing);
}

#[test]
fn no_permission_means_no_action() {
    let mut no_connect = env();
    no_connect.can_connect = false;
    let d = decide(event(None, Some(100), false), no_connect);
    assert_eq!(d, Decision { leave_previous: false, play_pairing: false, announce: false });
}

#[test]
fn leaving_an_abandoned_channel_disconnects() {
    let mut emptied = env();
    emptied.bot_channel_emptied = true;
    let d = decide(event(in_channel(100, false), None, false), emptied);
    assert!(d.leave_previous);
    assert!(!d.announce);
    assert!(!d.play_pairing);

    // Someone human is still there: stay connected, and a vanished channel
    // triggers nothing else.
    let d2 = decide(event(in_channel(100, false), None, false), env());
    assert_eq!(d2, Decision { leave_previous: false, play_pairing: false, announce: false });
}

#[test]
fn pairing_sound_on_first_joint_appearance() {
    let mut paired = env();
    paired.pairing_matched = true;
    let d = decide(event(None, Some(100), false), paired);
    assert!(d.play_pairing);
    assert!(d.announce, "the pairing sound does not suppress the announcement");

    // A later rejoin is not a first appearance.
    let d2 = decide(event(in_channel(200, false), Some(100), false), paired);
    assert!(!d2.play_pairing);
}

#[test]
fn pairing_entries_fire_in_order() {
    let entries = vec![
        PairingEntry { first: 1, second: 2, sound: "reunion".to_string() },
        PairingEntry { first: 1, second: 3, sound: "other".to_string() },
    ];
    let slot = |user_id: u64, channel: u64| VoiceSlot { user_id, is_bot: false, channel: Some(channel) };

    // The partner is in the channel: the first matching entry's sound.
    let slots = vec![slot(2, 100), slot(3, 100)];
    assert_eq!(pairing_sound(&entries, &slots, 1, 100), Some("reunion".to_string()));
    // Either side of the pair triggers it.
    let with_first = vec![slot(1, 100)];
    assert_eq!(pairing_sound(&entries, &with_first, 2, 100), Some("reunion".to_string()));
    // Only the later entry matches when the first partner is elsewhere.
    let slots = vec![slot(2, 200), slot(3, 100)];
    assert_eq!(pairing_sound(&entries, &slots, 1, 100), Some("other".to_string()));
    // No partner in the channel: nothing fires.
    let slots = vec![slot(2, 200)];
    assert_eq!(pairing_sound(&entries, &slots, 1, 100), None);
    // An unpaired user never fires an entry.
    let slots = vec![slot(2, 100)];
    assert_eq!(pairing_sound(&entries, &slots, 9, 100), None);
}

#[test]
fn bot_channel_occupancy() {
    let bot = 99;
    let slots = |entries: Vec<(u64, bool, Option<u64>)>| -> Vec<VoiceSlot> {
        entries
            .into_iter()
            .map(|(user_id, is_bot, channel)| VoiceSlot { user_id, is_bot, channel })
            .collect()
    };

    // The bot has no voice state at all.
    assert!(!bot_voice_channel_is_empty(&slots(vec![(1, false, Some(5))]), bot));
    // The bot is tracked but in no channel.
    assert!(!bot_voice_channel_is_empty(&slots(vec![(bot, true, None)]), bot));
    // Alone in its channel.
    assert!(bot_voice_channel_is_empty(&slots(vec![(bot, true, Some(5))]), bot));
    // A human shares the channel.
    assert!(!bot_voice_channel_is_empty(&slots(vec![(bot, true, Some(5)), (1, false, Some(5))]), bot));
    // The human is elsewhere.
    assert!(bot_voice_channel_is_empty(&slots(vec![(bot, true, Some(5)), (1, false, Some(6))]), bot));
    // Only bot-controlled accounts remain.
    assert!(bot_voice_channel_is_empty(&slots(vec![(bot, true, Some(5)), (2, true, Some(5))]), bot));
}
