use announcer::resolver::{resolve_and_play, GuildPresence, PlayPlan};
use announcer::store::AssetStore;

#[test]
fn no_record_resolves_to_fallback_and_caches_it() {
    let name = "newcomer".to_string();
    let mut store = AssetStore::new();
    let mut presence = GuildPresence::new();

    let first = resolve_and_play(&mut store, &mut presence, &name, 42, 100);
    match first.plan {
        PlayPlan::Fallback { display_name, synthesized } => {
            assert_eq!(display_name, name);
            assert!(synthesized, "first miss must synthesize the fallback");
        }
        PlayPlan::Clip { .. } => panic!("expected the fallback asset"),
    }
    assert!(store.has_fallback(&name));
    assert!(store.has_marker(&name), "synthesis must leave a pending marker");

    let second = resolve_and_play(&mut store, &mut presence, &name, 42, 100);
    match second.plan {
        PlayPlan::Fallback { display_name, synthesized } => {
            assert_eq!(display_name, name);
            assert!(!synthesized, "the cached fallback must be reused");
        }
        PlayPlan::Clip { .. } => panic!("expected the fallback asset"),
    }
}

#[test]
fn selected_clip_resolves_when_library_nonempty() {
    let name = "alice".to_string();
    let mut store = AssetStore::new();
    let mut presence = GuildPresence::new();
    store.register_clip(&name, &"funny".to_string());
    store.set_active(&name, 7, &"funny".to_string());

    let played = resolve_and_play(&mut store, &mut presence, &name, 7, 100);
    match played.plan {
        PlayPlan::Clip { display_name, clip_name } => {
            assert_eq!(display_name, name);
            assert_eq!(clip_name, "funny");
        }
        PlayPlan::Fallback { .. } => panic!("expected the selected clip"),
    }
    assert!(!store.has_fallback(&name));
}

#[test]
fn selection_without_library_falls_back() {
    let name = "alice".to_string();
    let mut store = AssetStore::new();
    let mut presence = GuildPresence::new();
    store.set_active(&name, 7, &"gone".to_string());

    let played = resolve_and_play(&mut store, &mut presence, &name, 7, 100);
    assert!(matches!(played.plan, PlayPlan::Fallback { .. }));
}

#[test]
fn transport_joins_once_per_channel() {
    let name = "alice".to_string();
    let mut store = AssetStore::new();
    let mut presence = GuildPresence::new();

    let first = resolve_and_play(&mut store, &mut presence, &name, 7, 100);
    assert!(first.join, "disconnected transport must join");
    assert_eq!(presence.channel, Some(100));
    let second = resolve_and_play(&mut store, &mut presence, &name, 7, 100);
    assert!(!second.join, "already in the channel: no second join");
    let third = resolve_and_play(&mut store, &mut presence, &name, 7, 200);
    assert!(third.join, "another channel: join again");
    assert_eq!(presence.channel, Some(200));

    presence.leave();
    assert_eq!(presence.channel, None);
    assert!(presence.playing.is_none());
}

#[test]
fn playback_replaces_previous_stream() {
    let alice = "alice".to_string();
    let bob = "bob".to_string();
    let mut store = AssetStore::new();
    let mut presence = GuildPresence::new();
    store.register_clip(&alice, &"funny".to_string());
    store.set_active(&alice, 7, &"funny".to_string());

    resolve_and_play(&mut store, &mut presence, &alice, 7, 100);
    match presence.playing.as_ref().unwrap() {
        PlayPlan::Clip { clip_name, .. } => assert_eq!(clip_name, "funny"),
        _ => panic!("expected alice's clip to be playing"),
    }
    resolve_and_play(&mut store, &mut presence, &bob, 8, 100);
    match presence.playing.as_ref().unwrap() {
        PlayPlan::Fallback { display_name, .. } => assert_eq!(display_name, &bob),
        _ => panic!("expected bob's fallback to have replaced the stream"),
    }
}

#[test]
fn random_mode_samples_whole_library_roughly_uniformly() {
    let name = "bob".to_string();
    let mut store = AssetStore::new();
    let mut presence = GuildPresence::new();
    store.register_clip(&name, &"a".to_string());
    store.register_clip(&name, &"b".to_string());
    store.register_clip(&name, &"c".to_string());
    store.set_active(&name, 9, &"a".to_string());
    store.toggle_random(&name, 9).unwrap();

    let mut counts = [0u32; 3];
    for _ in 0..1000 {
        let played = resolve_and_play(&mut store, &mut presence, &name, 9, 100);
        match played.plan {
            PlayPlan::Clip { clip_name, .. } => match clip_name.as_str() {
                "a" => counts[0] += 1,
                "b" => counts[1] += 1,
                "c" => counts[2] += 1,
                other => panic!("clip {other} is not in bob's library"),
            },
            PlayPlan::Fallback { .. } => panic!("random mode must pick a library clip"),
        }
    }
    for (i, &count) in counts.iter().enumerate() {
        assert!(
            (233..=433).contains(&count),
            "clip {i} selected {count} times out of 1000, expected roughly a third"
        );
    }
}

#[test]
fn random_mode_ignores_the_selection() {
    // The active clip stays in the sample space and the others are still
    // drawn: random mode samples the entire library by design.
    let name = "bob".to_string();
    let mut store = AssetStore::new();
    let mut presence = GuildPresence::new();
    store.register_clip(&name, &"a".to_string());
    store.register_clip(&name, &"b".to_string());
    store.set_active(&name, 9, &"b".to_string());
    store.toggle_random(&name, 9).unwrap();

    let mut saw_other = false;
    for _ in 0..200 {
        let played = resolve_and_play(&mut store, &mut presence, &name, 9, 100);
        if let PlayPlan::Clip { clip_name, .. } = played.plan {
            if clip_name == "a" {
                saw_other = true;
            }
        }
    }
    assert!(saw_other, "clips other than the selection must be drawn");
}
