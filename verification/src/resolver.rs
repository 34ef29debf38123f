//! The announcement resolver: decides which asset is played for a
//! (display name, user id) pair, and tracks the per-guild voice presence.
//!
//! When the pair has a selected clip and the name's library is non-empty,
//! the resolver picks the selected clip, or, in random mode, one clip
//! uniformly from the whole library (the selection is ignored by design:
//! random mode samples the entire library). Otherwise it resolves to the
//! name's synthesized fallback asset, synthesizing and caching it on first
//! miss and writing a pending-synthesis marker.

use vstd::prelude::*;

use crate::store::{spec_active, spec_random_flag, AssetStore, StoreView};

verus! {

/// The asset a playback attempt resolves to.
pub enum PlayPlan {
    /// A clip of the display name's library.
    Clip { display_name: String, clip_name: String },
    /// The display name's synthesized fallback asset; `synthesized` says
    /// whether this resolution had to create it (a cache miss).
    Fallback { display_name: String, synthesized: bool },
}

impl PlayPlan {
    /// An equal copy of the plan.
    pub fn duplicate(&self) -> (r: PlayPlan)
        ensures
            r == *self,
    {
        match self {
            PlayPlan::Clip { display_name, clip_name } => PlayPlan::Clip {
                display_name: display_name.clone(),
                clip_name: clip_name.clone(),
            },
            PlayPlan::Fallback { display_name, synthesized } => PlayPlan::Fallback {
                display_name: display_name.clone(),
                synthesized: *synthesized,
            },
        }
    }
}

/// The transport state of one guild: which channel the transport occupies,
/// and the playback that currently holds its single stream.
pub struct GuildPresence {
    pub channel: Option<u64>,
    pub playing: Option<PlayPlan>,
}

impl GuildPresence {
    /// A disconnected guild: no channel, nothing playing.
    pub fn new() -> (p: GuildPresence)
        ensures
            p.channel is None,
            p.playing is None,
    {
        GuildPresence { channel: None, playing: None }
    }

    /// Leave the voice channel: the transport disconnects and playback
    /// stops.
    pub fn leave(&mut self)
        ensures
            final(self).channel is None,
            final(self).playing is None,
    {
        self.channel = None;
        self.playing = None;
    }
}

/// The result of one resolution: the asset to play, and whether the
/// transport must first join the channel.
pub struct Playback {
    pub plan: PlayPlan,
    pub join: bool,
}

/// Whether resolution for this pair falls back to the synthesized asset:
/// it does unless a clip is selected and the name's library is non-empty.
pub open spec fn uses_fallback(v: StoreView, name: Seq<char>, user: u64) -> bool {
    !(spec_active(v.records, name, user) is Some && v.libraries.contains_key(name)
        && v.libraries[name].len() > 0)
}

/// Whether a fallback resolution has to synthesize the asset: only on the
/// first miss; afterwards the cached asset is reused.
pub open spec fn fallback_synthesizes(v: StoreView, name: Seq<char>) -> bool {
    !v.fallbacks.contains(name)
}

/// What a fallback resolution does to the store: the fallback asset is
/// cached, and on a cache miss a pending-synthesis marker is written.
pub open spec fn fallback_effect(v: StoreView, name: Seq<char>) -> StoreView {
    StoreView {
        fallbacks: v.fallbacks.insert(name),
        markers: if v.fallbacks.contains(name) {
            v.markers
        } else {
            v.markers.insert(name)
        },
        ..v
    }
}

/// A fallback asset is synthesized at most once per display name: the state
/// any fallback resolution leaves behind never synthesizes again, and
/// further fallback resolutions leave the store unchanged.
pub proof fn lemma_fallback_synthesized_at_most_once(v: StoreView, name: Seq<char>)
    ensures
        !fallback_synthesizes(fallback_effect(v, name), name),
        fallback_effect(fallback_effect(v, name), name) == fallback_effect(v, name),
{
    let once = fallback_effect(v, name);
    assert(once.fallbacks.contains(name));
    assert(fallback_effect(once, name).fallbacks =~= once.fallbacks);
}

/// A pair with no record always resolves to the fallback asset: absence of
/// a record can never surface as a failure to the listener.
pub proof fn lemma_no_record_uses_fallback(v: StoreView, name: Seq<char>, user: u64)
    requires
        !v.records.contains_key((name, user)),
    ensures
        uses_fallback(v, name, user),
{
}

/// Relies on rand::random_range over `0..n`: returns a value of the
/// non-empty range, uniformly distributed.
#[verifier::external_body]
fn pick_uniform(n: usize) -> (r: usize)
    requires
        n > 0,
    ensures
        r < n,
{
    rand::random_range(0..n)
}

/// Resolve the asset to play for (name, user) and update the guild's
/// transport state: the transport joins `channel` unless already there, and
/// the resolved asset replaces whatever the guild's single stream was
/// playing. Resolution never fails: a pair with no usable clip degrades to
/// the synthesized fallback asset.
pub fn resolve_and_play(
    store: &mut AssetStore,
    presence: &mut GuildPresence,
    name: &String,
    user: u64,
    channel: u64,
) -> (r: Playback)
    requires
        old(store).wf(),
    ensures
        final(store).wf(),
        final(presence).channel == Some(channel),
        final(presence).playing == Some(r.plan),
        r.join == (old(presence).channel != Some(channel)),
        !uses_fallback(old(store)@, name@, user) ==> {
            &&& *final(store) == *old(store)
            &&& r.plan matches PlayPlan::Clip { display_name, clip_name } && display_name@ == name@
                && (if spec_random_flag(old(store)@.records, name@, user) {
                    old(store)@.libraries[name@].contains(clip_name@)
                } else {
                    Some(clip_name@) == spec_active(old(store)@.records, name@, user)
                })
        },
        uses_fallback(old(store)@, name@, user) ==> {
            &&& final(store)@ == fallback_effect(old(store)@, name@)
            &&& r.plan matches PlayPlan::Fallback { display_name, synthesized } && display_name@
                == name@ && synthesized == fallback_synthesizes(old(store)@, name@)
        },
{
    let active_opt = store.get_active_clip(name, user);
    let clips_opt = store.list_clip_names(name);
    let plan = match active_opt {
        Some(active_clip) => match clips_opt {
            Some(clips) => {
                if clips.len() > 0 {
                    let clip_name = if store.get_random_flag(name, user) {
                        let i = pick_uniform(clips.len());
                        let picked = clips[i].clone();
                        proof {
                            assert(crate::store::strs_view(clips@)[i as int] == picked@);
                        }
                        picked
                    } else {
                        active_clip
                    };
                    PlayPlan::Clip { display_name: name.clone(), clip_name }
                } else {
                    fallback_plan(store, name)
                }
            },
            None => fallback_plan(store, name),
        },
        None => fallback_plan(store, name),
    };
    let join = match presence.channel {
        Some(c) => c != channel,
        None => true,
    };
    presence.channel = Some(channel);
    presence.playing = Some(plan.duplicate());
    Playback { plan, join }
}

/// The fallback half of a resolution: reuse the cached synthesized asset,
/// or synthesize it on first miss and write the pending-synthesis marker.
fn fallback_plan(store: &mut AssetStore, name: &String) -> (p: PlayPlan)
    requires
        old(store).wf(),
    ensures
        final(store).wf(),
        final(store)@ == fallback_effect(old(store)@, name@),
        p matches PlayPlan::Fallback { display_name, synthesized } && display_name@ == name@
            && synthesized == fallback_synthesizes(old(store)@, name@),
{
    let synthesized = !store.has_fallback(name);
    if synthesized {
        store.register_fallback(name);
        store.add_marker(name);
    } else {
        proof {
            assert(old(store)@.fallbacks.insert(name@) =~= old(store)@.fallbacks);
        }
    }
    PlayPlan::Fallback { display_name: name.clone(), synthesized }
}

} // verus!
