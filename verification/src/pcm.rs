//! Endpoints and their verified configurations.
//!
//! An endpoint comes into being by probing: its capabilities are found,
//! the combinations that it takes together are searched, and the
//! capabilities are then cut down to the values that some such combination
//! uses. An endpoint without a verified configuration does not come into
//! being at all.

use vstd::prelude::*;
use crate::audio::{
    format_key, formats_ascending, lemma_formats_ascending_is_by_rank, Direction, SampleFormat,
};
use crate::backend::{info_view, Backend, InfoView, PcmInfo};
use crate::buffer::{
    buffer_times_found, lemma_window_of_wf, recommended_ms, scan_buffer_times, window_of,
    window_wf, BufferWindow,
};
use crate::capability::{
    capabilities_probed, lemma_capabilities_unique, uses_channels, uses_format, uses_rate,
    CapabilitySet, CapabilityView,
};
use crate::ordered::{
    ascending, lemma_ascending_is_by_number, lemma_filter_ascending, number_key, within,
};
use crate::policy::{PolicyView, ProbePolicy};
use crate::search::{
    combination_key, combinations_ascending, lemma_searched_unique, search, searched,
    Combination,
};
use crate::session::{BoundsQuery, Trial};

verus! {

/// Who an endpoint is.
#[derive(Clone, Debug)]
pub struct Identity {
    /// The name under which the endpoint is opened.
    pub name: String,
    /// What the endpoint calls itself.
    pub description: String,
    pub direction: Direction,
    /// The key of the card that the endpoint belongs to.
    pub card_name: String,
    pub device_number: u32,
    pub sub_device_number: u32,
    /// Whether the endpoint can be shared through a software mixer, as the
    /// backend told.
    pub software_mixable: bool,
    /// Whether the device mixes by itself, as the backend told.
    pub has_builtin_mixer: bool,
    /// Whether the endpoint shows its true limits, as far as probing could
    /// tell: it does not if a scan of its rates or of its channel counts
    /// was given up.
    pub is_real_hardware: bool,
}

/// An identity with its texts as sequences of characters.
pub struct IdentityView {
    pub name: Seq<char>,
    pub description: Seq<char>,
    pub direction: Direction,
    pub card_name: Seq<char>,
    pub device_number: u32,
    pub sub_device_number: u32,
    pub software_mixable: bool,
    pub has_builtin_mixer: bool,
    pub is_real_hardware: bool,
}

impl View for Identity {
    type V = IdentityView;

    open spec fn view(&self) -> IdentityView {
        IdentityView {
            name: self.name@,
            description: self.description@,
            direction: self.direction,
            card_name: self.card_name@,
            device_number: self.device_number,
            sub_device_number: self.sub_device_number,
            software_mixable: self.software_mixable,
            has_builtin_mixer: self.has_builtin_mixer,
            is_real_hardware: self.is_real_hardware,
        }
    }
}

/// The identity of the endpoint opened under `name` on card `card_name`,
/// given what it says of itself and whether it counts as real hardware.
pub open spec fn identity_of(
    name: Seq<char>,
    card_name: Seq<char>,
    direction: Direction,
    info: InfoView,
    real_hardware: bool,
) -> IdentityView {
    IdentityView {
        name,
        description: info.description,
        direction,
        card_name,
        device_number: info.device_number,
        sub_device_number: info.sub_device_number,
        software_mixable: info.software_mixable,
        has_builtin_mixer: info.has_builtin_mixer,
        is_real_hardware: real_hardware,
    }
}

impl Identity {
    /// A copy of the identity.
    pub fn duplicate(&self) -> (copy: Identity)
        ensures
            copy@ == self@,
    {
        Identity {
            name: self.name.clone(),
            description: self.description.clone(),
            direction: self.direction,
            card_name: self.card_name.clone(),
            device_number: self.device_number,
            sub_device_number: self.sub_device_number,
            software_mixable: self.software_mixable,
            has_builtin_mixer: self.has_builtin_mixer,
            is_real_hardware: self.is_real_hardware,
        }
    }
}

/// One combination that an endpoint was seen to take, with the endpoint's
/// identity, the buffer-time window found for it and a buffer time in
/// milliseconds.
#[derive(Clone, Debug)]
pub struct ValidConfiguration {
    pub identity: Identity,
    pub format: SampleFormat,
    pub rate: u32,
    pub channels: u32,
    pub buffer_time_ms: u32,
    pub window: BufferWindow,
}

/// A configuration as plain values; the window as lower and upper bound in
/// microseconds.
pub struct ConfigView {
    pub identity: IdentityView,
    pub format: SampleFormat,
    pub rate: u32,
    pub channels: u32,
    pub buffer_time_ms: u32,
    pub window: (u32, u32),
}

impl ConfigView {
    /// Format, rate and channel count of the configuration.
    pub open spec fn combination(self) -> Combination {
        Combination { format: self.format, rate: self.rate, channels: self.channels }
    }
}

impl View for ValidConfiguration {
    type V = ConfigView;

    open spec fn view(&self) -> ConfigView {
        ConfigView {
            identity: self.identity@,
            format: self.format,
            rate: self.rate,
            channels: self.channels,
            buffer_time_ms: self.buffer_time_ms,
            window: self.window@,
        }
    }
}

/// The query for the buffer-time range of a combination.
pub open spec fn window_query(c: Combination) -> BoundsQuery {
    BoundsQuery::BufferTime { format: c.format, rate: c.rate, channels: c.channels }
}

/// The configuration that is made of a combination once the endpoint has
/// answered the query for its buffer-time range: the window is the one made
/// of the answer and the buffer time is the window's recommendation.
pub open spec fn configuration_of(
    identity: IdentityView,
    c: Combination,
    reply: Option<(u32, u32)>,
) -> ConfigView {
    ConfigView {
        identity,
        format: c.format,
        rate: c.rate,
        channels: c.channels,
        buffer_time_ms: recommended_ms(window_of(reply)),
        window: window_of(reply),
    }
}

/// `config` is a configuration that the backend may make of the
/// combination: the one made of some answer of the backend to the query
/// for the buffer-time range.
pub open spec fn configured<D, B, T>(
    backend: &Backend<D, B, T>,
    identity: IdentityView,
    c: Combination,
    config: ConfigView,
) -> bool where
    D: Fn(&str, Direction) -> Option<PcmInfo>,
    B: Fn(&str, Direction, BoundsQuery) -> Option<(u32, u32)>,
    T: Fn(&str, Direction, Trial) -> bool,
 {
    exists|reply: Option<(u32, u32)>| #[trigger]
        backend.reports(identity.name, identity.direction, window_query(c), reply) && config
            == configuration_of(identity, c, reply)
}

impl ValidConfiguration {
    /// The configuration made of a combination and of the endpoint's answer
    /// to the query for its buffer-time range.
    pub fn with_window(
        identity: Identity,
        format: SampleFormat,
        rate: u32,
        channels: u32,
        reply: Option<(u32, u32)>,
    ) -> (config: ValidConfiguration)
        ensures
            config@ == configuration_of(identity@, Combination { format, rate, channels }, reply),
    {
        let window = BufferWindow::from_reply(reply);
        ValidConfiguration {
            identity,
            format,
            rate,
            channels,
            buffer_time_ms: window.recommended_ms(),
            window,
        }
    }

    /// Makes the configuration of a combination that the endpoint was seen
    /// to take: asks the backend for the buffer-time range that the
    /// combination leaves and keeps the window made of the answer.
    pub fn new<D, B, T>(
        identity: Identity,
        format: SampleFormat,
        rate: u32,
        channels: u32,
        backend: &Backend<D, B, T>,
    ) -> (config: ValidConfiguration) where
        D: Fn(&str, Direction) -> Option<PcmInfo>,
        B: Fn(&str, Direction, BoundsQuery) -> Option<(u32, u32)>,
        T: Fn(&str, Direction, Trial) -> bool,

        requires
            backend.ready(),
        ensures
            configured(backend, identity@, Combination { format, rate, channels }, config@),
    {
        let reply = (backend.bounds)(
            identity.name.as_str(),
            identity.direction,
            BoundsQuery::BufferTime { format, rate, channels },
        );
        assert(backend.reports(
            identity@.name,
            identity@.direction,
            window_query(Combination { format, rate, channels }),
            reply,
        ));
        ValidConfiguration::with_window(identity, format, rate, channels, reply)
    }

    /// The buffer times in milliseconds that the endpoint takes with this
    /// configuration: every whole millisecond of the window is put to the
    /// backend. The list may be empty.
    pub fn get_buffer_times_ms<D, B, T>(&self, backend: &Backend<D, B, T>) -> (times: Vec<
        u32,
    >) where
        D: Fn(&str, Direction) -> Option<PcmInfo>,
        B: Fn(&str, Direction, BoundsQuery) -> Option<(u32, u32)>,
        T: Fn(&str, Direction, Trial) -> bool,

        requires
            backend.ready(),
        ensures
            buffer_times_found(
                backend,
                self@.identity.name,
                self@.identity.direction,
                self@.format,
                self@.rate,
                self@.channels,
                self@.window,
                times@,
            ),
    {
        scan_buffer_times(
            backend,
            self.identity.name.as_str(),
            self.identity.direction,
            self.format,
            self.rate,
            self.channels,
            &self.window,
        )
    }

    /// A copy of the configuration.
    pub fn duplicate(&self) -> (copy: ValidConfiguration)
        ensures
            copy@ == self@,
    {
        ValidConfiguration {
            identity: self.identity.duplicate(),
            format: self.format,
            rate: self.rate,
            channels: self.channels,
            buffer_time_ms: self.buffer_time_ms,
            window: self.window,
        }
    }
}

/// The views of a list of configurations.
pub open spec fn config_views(configs: Seq<ValidConfiguration>) -> Seq<ConfigView> {
    Seq::new(configs.len(), |i: int| configs[i]@)
}

/// An endpoint as plain values.
pub struct PcmView {
    pub identity: IdentityView,
    pub formats: Seq<SampleFormat>,
    pub rates: Seq<u32>,
    pub channels: Seq<u32>,
    pub configurations: Seq<ConfigView>,
}

impl PcmView {
    /// What holds of every endpoint. It has a configuration. Its lists are
    /// strictly increasing, the configurations by format, then rate, then
    /// channel count. Each configuration carries the endpoint's identity and
    /// a well-formed window. Format, rate and channel count of each
    /// configuration are in the endpoint's lists, and the lists hold nothing
    /// that no configuration uses.
    pub open spec fn wf(self) -> bool {
        &&& self.configurations.len() > 0
        &&& formats_ascending(self.formats)
        &&& ascending(self.rates)
        &&& ascending(self.channels)
        &&& forall|i: int, j: int|
            0 <= i < j < self.configurations.len() ==> combination_key(
                (#[trigger] self.configurations[i]).combination(),
            ) < combination_key((#[trigger] self.configurations[j]).combination())
        &&& forall|i: int|
            0 <= i < self.configurations.len() ==> {
                let c = #[trigger] self.configurations[i];
                &&& c.identity == self.identity
                &&& window_wf(c.window)
                &&& self.formats.contains(c.format)
                &&& self.rates.contains(c.rate)
                &&& self.channels.contains(c.channels)
            }
        &&& self.no_dead_entries()
    }

    /// The lists hold nothing that no configuration uses.
    #[verifier::opaque]
    pub open spec fn no_dead_entries(self) -> bool {
        &&& forall|f: SampleFormat| #[trigger]
            self.formats.contains(f) ==> exists|i: int|
                0 <= i < self.configurations.len() && (#[trigger] self.configurations[i]).format
                    == f
        &&& forall|r: u32| #[trigger]
            self.rates.contains(r) ==> exists|i: int|
                0 <= i < self.configurations.len() && (#[trigger] self.configurations[i]).rate == r
        &&& forall|c: u32| #[trigger]
            self.channels.contains(c) ==> exists|i: int|
                0 <= i < self.configurations.len() && (#[trigger] self.configurations[i]).channels
                    == c
    }
}

/// Every configuration of an endpoint is made of a format, a rate and a
/// channel count that stand in the endpoint's lists.
pub proof fn lemma_configurations_within_lists(e: PcmView, i: int)
    requires
        e.wf(),
        0 <= i < e.configurations.len(),
    ensures
        e.formats.contains(e.configurations[i].format),
        e.rates.contains(e.configurations[i].rate),
        e.channels.contains(e.configurations[i].channels),
{
}

/// No dead entries: every format, every rate and every channel count in
/// an endpoint's lists is used by one of the endpoint's configurations.
pub proof fn lemma_no_dead_entries(e: PcmView)
    requires
        e.wf(),
    ensures
        forall|f: SampleFormat| #[trigger]
            e.formats.contains(f) ==> exists|i: int|
                0 <= i < e.configurations.len() && (#[trigger] e.configurations[i]).format == f,
        forall|r: u32| #[trigger]
            e.rates.contains(r) ==> exists|i: int|
                0 <= i < e.configurations.len() && (#[trigger] e.configurations[i]).rate == r,
        forall|c: u32| #[trigger]
            e.channels.contains(c) ==> exists|i: int|
                0 <= i < e.configurations.len() && (#[trigger] e.configurations[i]).channels == c,
{
    reveal(PcmView::no_dead_entries);
}

/// What is made of a finished search. Nothing, if nothing was found.
/// Otherwise the endpoint with the given identity, the capabilities cut
/// down to what the found combinations use, and one configuration for each
/// found combination, in the order of the search.
pub open spec fn assembled<D, B, T>(
    backend: &Backend<D, B, T>,
    identity: IdentityView,
    capabilities: CapabilityView,
    found: Seq<Combination>,
    result: Option<PcmView>,
) -> bool where
    D: Fn(&str, Direction) -> Option<PcmInfo>,
    B: Fn(&str, Direction, BoundsQuery) -> Option<(u32, u32)>,
    T: Fn(&str, Direction, Trial) -> bool,
 {
    if found.len() == 0 {
        result is None
    } else {
        &&& result matches Some(e)
        &&& e.identity == identity
        &&& e.formats == capabilities.filtered(found).formats
        &&& e.rates == capabilities.filtered(found).rates
        &&& e.channels == capabilities.filtered(found).channels
        &&& e.configurations.len() == found.len()
        &&& forall|i: int|
            0 <= i < found.len() ==> configured(
                backend,
                identity,
                found[i],
                #[trigger] e.configurations[i],
            )
    }
}

/// Capabilities, flag and combinations are what probing and searching may
/// find, and `result` is what is made of them.
pub open spec fn found_as<D, B, T>(
    policy: PolicyView,
    backend: &Backend<D, B, T>,
    name: Seq<char>,
    card_name: Seq<char>,
    direction: Direction,
    info: InfoView,
    capabilities: CapabilityView,
    real_hardware: bool,
    found: Seq<Combination>,
    result: Option<PcmView>,
) -> bool where
    D: Fn(&str, Direction) -> Option<PcmInfo>,
    B: Fn(&str, Direction, BoundsQuery) -> Option<(u32, u32)>,
    T: Fn(&str, Direction, Trial) -> bool,
 {
    &&& capabilities_probed(policy, backend, name, direction, capabilities, real_hardware)
    &&& searched(
        backend,
        name,
        direction,
        capabilities.formats,
        capabilities.rates,
        capabilities.channels,
        found,
    )
    &&& assembled(
        backend,
        identity_of(name, card_name, direction, info, real_hardware),
        capabilities,
        found,
        result,
    )
}

/// What probing may come to once the backend has described the endpoint:
/// its capabilities are probed, the combinations among them are searched,
/// and the result is made of what was found.
pub open spec fn probed_with<D, B, T>(
    policy: PolicyView,
    backend: &Backend<D, B, T>,
    name: Seq<char>,
    card_name: Seq<char>,
    direction: Direction,
    info: InfoView,
    result: Option<PcmView>,
) -> bool where
    D: Fn(&str, Direction) -> Option<PcmInfo>,
    B: Fn(&str, Direction, BoundsQuery) -> Option<(u32, u32)>,
    T: Fn(&str, Direction, Trial) -> bool,
 {
    exists|capabilities: CapabilityView, real_hardware: bool, found: Seq<Combination>|
        found_as(
            policy,
            backend,
            name,
            card_name,
            direction,
            info,
            capabilities,
            real_hardware,
            found,
            result,
        )
}

/// What probing may come to once the backend has described the endpoint,
/// or failed to: nothing in the second case.
pub open spec fn probed_as<D, B, T>(
    policy: PolicyView,
    backend: &Backend<D, B, T>,
    name: Seq<char>,
    card_name: Seq<char>,
    direction: Direction,
    info: Option<InfoView>,
    result: Option<PcmView>,
) -> bool where
    D: Fn(&str, Direction) -> Option<PcmInfo>,
    B: Fn(&str, Direction, BoundsQuery) -> Option<(u32, u32)>,
    T: Fn(&str, Direction, Trial) -> bool,
 {
    match info {
        None => result is None,
        Some(info) => probed_with(policy, backend, name, card_name, direction, info, result),
    }
}

/// What probing an endpoint may come to: what it comes to for some answer
/// of the backend when asked to describe the endpoint.
pub open spec fn probed<D, B, T>(
    policy: PolicyView,
    backend: &Backend<D, B, T>,
    name: Seq<char>,
    card_name: Seq<char>,
    direction: Direction,
    result: Option<PcmView>,
) -> bool where
    D: Fn(&str, Direction) -> Option<PcmInfo>,
    B: Fn(&str, Direction, BoundsQuery) -> Option<(u32, u32)>,
    T: Fn(&str, Direction, Trial) -> bool,
 {
    exists|info: Option<InfoView>| #[trigger]
        backend.describes(name, direction, info) && probed_as(
            policy,
            backend,
            name,
            card_name,
            direction,
            info,
            result,
        )
}

/// One direction of a device, with what it was seen to accept.
#[derive(Debug)]
pub struct AlsaPcm {
    identity: Identity,
    formats: Vec<SampleFormat>,
    rates: Vec<u32>,
    channels: Vec<u32>,
    valid_configurations: Vec<ValidConfiguration>,
}

impl View for AlsaPcm {
    type V = PcmView;

    closed spec fn view(&self) -> PcmView {
        PcmView {
            identity: self.identity@,
            formats: self.formats@,
            rates: self.rates@,
            channels: self.channels@,
            configurations: config_views(self.valid_configurations@),
        }
    }
}

/// The view of a probing result.
pub open spec fn pcm_view(pcm: Option<AlsaPcm>) -> Option<PcmView> {
    match pcm {
        Some(p) => Some(p@),
        None => None,
    }
}

/// Makes the configuration of each found combination, in order.
fn configure_all<D, B, T>(
    identity: &Identity,
    found: &Vec<Combination>,
    backend: &Backend<D, B, T>,
) -> (configurations: Vec<ValidConfiguration>) where
    D: Fn(&str, Direction) -> Option<PcmInfo>,
    B: Fn(&str, Direction, BoundsQuery) -> Option<(u32, u32)>,
    T: Fn(&str, Direction, Trial) -> bool,

    requires
        backend.ready(),
    ensures
        configurations@.len() == found@.len(),
        forall|k: int|
            0 <= k < found@.len() ==> configured(
                backend,
                identity@,
                found@[k],
                #[trigger] configurations@[k]@,
            ),
{
    let mut configurations: Vec<ValidConfiguration> = Vec::new();
    let mut i: usize = 0;
    while i < found.len()
        invariant
            backend.ready(),
            i <= found.len(),
            configurations@.len() == i,
            forall|k: int|
                0 <= k < i ==> configured(
                    backend,
                    identity@,
                    found@[k],
                    #[trigger] configurations@[k]@,
                ),
        decreases found.len() - i,
    {
        let c = found[i];
        let config = ValidConfiguration::new(
            identity.duplicate(),
            c.format,
            c.rate,
            c.channels,
            backend,
        );
        configurations.push(config);
        i = i + 1;
    }
    configurations
}

impl AlsaPcm {
    /// What holds of every endpoint: it is well formed.
    #[verifier::type_invariant]
    pub open spec fn inv(self) -> bool {
        self@.wf()
    }

    /// Makes the endpoint of a search that found something.
    fn assemble<D, B, T>(
        identity: Identity,
        capabilities: &CapabilitySet,
        found: &Vec<Combination>,
        configurations: Vec<ValidConfiguration>,
        backend: &Backend<D, B, T>,
    ) -> (pcm: AlsaPcm) where
        D: Fn(&str, Direction) -> Option<PcmInfo>,
        B: Fn(&str, Direction, BoundsQuery) -> Option<(u32, u32)>,
        T: Fn(&str, Direction, Trial) -> bool,

        requires
            found@.len() > 0,
            combinations_ascending(found@),
            forall|c: Combination| #[trigger]
                found@.contains(c) ==> capabilities@.formats.contains(c.format)
                    && capabilities@.rates.contains(c.rate) && capabilities@.channels.contains(
                    c.channels,
                ),
            configurations@.len() == found@.len(),
            forall|k: int|
                0 <= k < found@.len() ==> configured(
                    backend,
                    identity@,
                    found@[k],
                    #[trigger] configurations@[k]@,
                ),
        ensures
            assembled(backend, identity@, capabilities@, found@, Some(pcm@)),
            pcm@.wf(),
            pcm@.rates.len() <= capabilities@.rates.len(),
            pcm@.channels.len() <= capabilities@.channels.len(),
            within(pcm@.rates, capabilities@.rates),
            within(pcm@.channels, capabilities@.channels),
    {
        proof {
            use_type_invariant(capabilities);
        }
        let kept = capabilities.filtered(found);
        let (formats, rates, channels) = kept.into_lists();
        proof {
            let all = capabilities@;
            let e = PcmView {
                identity: identity@,
                formats: formats@,
                rates: rates@,
                channels: channels@,
                configurations: config_views(configurations@),
            };
            assert forall|i: int| 0 <= i < found@.len() implies configured(
                backend,
                identity@,
                found@[i],
                #[trigger] e.configurations[i],
            ) by {
                assert(e.configurations[i] == configurations@[i]@);
            }
            lemma_assembled_wf(backend, identity@, all, found@, e);
            lemma_ascending_is_by_number(all.rates);
            lemma_ascending_is_by_number(all.channels);
            lemma_filter_ascending(all.rates, number_key(), uses_rate(found@));
            lemma_filter_ascending(all.channels, number_key(), uses_channels(found@));
            all.rates.lemma_filter_len(uses_rate(found@));
            all.channels.lemma_filter_len(uses_channels(found@));
        }
        AlsaPcm { identity, formats, rates, channels, valid_configurations: configurations }
    }

    /// Probes the endpoint that is opened under `name` and belongs to the
    /// card `card_name`. The result is the endpoint with its filtered
    /// capabilities and its verified configurations, or nothing if it has
    /// no verified configuration.
    ///
    /// Neither its rates nor its channel counts are ever more than the
    /// policy's ceiling. If it counts as real hardware both are fewer than
    /// that; if not, its rates or its channel counts are all curated
    /// candidates.
    pub fn new<D, B, T>(
        name: &str,
        card_name: &str,
        direction: Direction,
        policy: &ProbePolicy,
        backend: &Backend<D, B, T>,
    ) -> (pcm: Option<AlsaPcm>) where
        D: Fn(&str, Direction) -> Option<PcmInfo>,
        B: Fn(&str, Direction, BoundsQuery) -> Option<(u32, u32)>,
        T: Fn(&str, Direction, Trial) -> bool,

        requires
            backend.ready(),
        ensures
            probed(policy@, backend, name@, card_name@, direction, pcm_view(pcm)),
            pcm matches Some(e) ==> {
                &&& e@.wf()
                &&& e@.rates.len() <= policy@.ceiling
                &&& e@.channels.len() <= policy@.ceiling
                &&& e@.identity.is_real_hardware ==> e@.rates.len() < policy@.ceiling
                    && e@.channels.len() < policy@.ceiling
                &&& !e@.identity.is_real_hardware ==> within(e@.rates, policy@.fallback_rates)
                    || within(e@.channels, policy@.fallback_channels)
            },
    {
        let info = (backend.describe)(name, direction);
        assert(backend.describes(name@, direction, info_view(info)));
        let info = match info {
            None => {
                return None;
            },
            Some(info) => info,
        };
        let (capabilities, real_hardware) = CapabilitySet::probe(policy, backend, name, direction);
        let found = search(backend, name, direction, &capabilities);
        let ghost identity_view = identity_of(name@, card_name@, direction, info@, real_hardware);
        if found.len() == 0 {
            assert(found_as(
                policy@,
                backend,
                name@,
                card_name@,
                direction,
                info@,
                capabilities@,
                real_hardware,
                found@,
                None,
            ));
            assert(probed_with(policy@, backend, name@, card_name@, direction, info@, None));
            return None;
        }
        let identity = Identity {
            name: String::from_str(name),
            description: info.description,
            direction,
            card_name: String::from_str(card_name),
            device_number: info.device_number,
            sub_device_number: info.sub_device_number,
            software_mixable: info.software_mixable,
            has_builtin_mixer: info.has_builtin_mixer,
            is_real_hardware: real_hardware,
        };
        assert(identity@ == identity_view);
        let configurations = configure_all(&identity, &found, backend);
        let pcm = AlsaPcm::assemble(identity, &capabilities, &found, configurations, backend);
        assert(found_as(
            policy@,
            backend,
            name@,
            card_name@,
            direction,
            info@,
            capabilities@,
            real_hardware,
            found@,
            Some(pcm@),
        ));
        assert(probed_with(policy@, backend, name@, card_name@, direction, info@, Some(pcm@)));
        Some(pcm)
    }

    /// A copy of the endpoint.
    pub fn duplicate(&self) -> (copy: AlsaPcm)
        ensures
            copy@ == self@,
    {
        proof {
            use_type_invariant(self);
        }
        let mut configurations: Vec<ValidConfiguration> = Vec::new();
        let mut i: usize = 0;
        while i < self.valid_configurations.len()
            invariant
                i <= self.valid_configurations.len(),
                configurations@.len() == i,
                forall|k: int| 0 <= k < i ==> (#[trigger] configurations@[k])@
                    == self.valid_configurations@[k]@,
            decreases self.valid_configurations.len() - i,
        {
            configurations.push(self.valid_configurations[i].duplicate());
            i = i + 1;
        }
        assert(config_views(configurations@) =~= config_views(self.valid_configurations@));
        AlsaPcm {
            identity: self.identity.duplicate(),
            formats: self.formats.clone(),
            rates: self.rates.clone(),
            channels: self.channels.clone(),
            valid_configurations: configurations,
        }
    }

    /// Who the endpoint is.
    pub fn identity(&self) -> (r: &Identity)
        ensures
            r@ == self@.identity,
            self@.wf(),
    {
        proof {
            use_type_invariant(self);
        }
        &self.identity
    }

    /// The formats that some verified configuration uses.
    pub fn formats(&self) -> (r: &Vec<SampleFormat>)
        ensures
            r@ == self@.formats,
            self@.wf(),
    {
        proof {
            use_type_invariant(self);
        }
        &self.formats
    }

    /// The rates that some verified configuration uses.
    pub fn rates(&self) -> (r: &Vec<u32>)
        ensures
            r@ == self@.rates,
            self@.wf(),
    {
        proof {
            use_type_invariant(self);
        }
        &self.rates
    }

    /// The channel counts that some verified configuration uses.
    pub fn channels(&self) -> (r: &Vec<u32>)
        ensures
            r@ == self@.channels,
            self@.wf(),
    {
        proof {
            use_type_invariant(self);
        }
        &self.channels
    }

    /// The verified configurations, ordered by format, then rate, then
    /// channel count.
    pub fn valid_configurations(&self) -> (r: &Vec<ValidConfiguration>)
        ensures
            config_views(r@) == self@.configurations,
            self@.wf(),
    {
        proof {
            use_type_invariant(self);
        }
        &self.valid_configurations
    }
}

/// Against a backend with one answer to each question, a combination has
/// one configuration only.
pub proof fn lemma_configured_unique<D, B, T>(
    backend: &Backend<D, B, T>,
    identity: IdentityView,
    c: Combination,
    first: ConfigView,
    second: ConfigView,
) where
    D: Fn(&str, Direction) -> Option<PcmInfo>,
    B: Fn(&str, Direction, BoundsQuery) -> Option<(u32, u32)>,
    T: Fn(&str, Direction, Trial) -> bool,

    requires
        backend.deterministic(),
        configured(backend, identity, c, first),
        configured(backend, identity, c, second),
    ensures
        first == second,
{
    let reply1 = choose|reply: Option<(u32, u32)>| #[trigger]
        backend.reports(identity.name, identity.direction, window_query(c), reply) && first
            == configuration_of(identity, c, reply);
    let reply2 = choose|reply: Option<(u32, u32)>| #[trigger]
        backend.reports(identity.name, identity.direction, window_query(c), reply) && second
            == configuration_of(identity, c, reply);
    assert(reply1 == reply2);
}

/// Against a backend with one answer to each question, one thing only is
/// made of a finished search.
pub proof fn lemma_assembled_unique<D, B, T>(
    backend: &Backend<D, B, T>,
    identity: IdentityView,
    capabilities: CapabilityView,
    found: Seq<Combination>,
    first: Option<PcmView>,
    second: Option<PcmView>,
) where
    D: Fn(&str, Direction) -> Option<PcmInfo>,
    B: Fn(&str, Direction, BoundsQuery) -> Option<(u32, u32)>,
    T: Fn(&str, Direction, Trial) -> bool,

    requires
        backend.deterministic(),
        assembled(backend, identity, capabilities, found, first),
        assembled(backend, identity, capabilities, found, second),
    ensures
        first == second,
{
    if found.len() > 0 {
        let a = first->0;
        let b = second->0;
        assert forall|i: int| 0 <= i < found.len() implies a.configurations[i]
            == b.configurations[i] by {
            lemma_configured_unique(
                backend,
                identity,
                found[i],
                a.configurations[i],
                b.configurations[i],
            );
        }
        assert(a.configurations =~= b.configurations);
    }
}

/// Probing is repeatable: against a backend with one answer to each
/// question, probing an endpoint twice under one policy comes to the same
/// result, the same endpoint with the same capabilities and the same
/// verified configurations, or nothing both times.
pub proof fn lemma_probing_repeatable<D, B, T>(
    policy: PolicyView,
    backend: &Backend<D, B, T>,
    name: Seq<char>,
    card_name: Seq<char>,
    direction: Direction,
    first: Option<PcmView>,
    second: Option<PcmView>,
) where
    D: Fn(&str, Direction) -> Option<PcmInfo>,
    B: Fn(&str, Direction, BoundsQuery) -> Option<(u32, u32)>,
    T: Fn(&str, Direction, Trial) -> bool,

    requires
        backend.deterministic(),
        probed(policy, backend, name, card_name, direction, first),
        probed(policy, backend, name, card_name, direction, second),
    ensures
        first == second,
{
    let info1 = choose|info: Option<InfoView>| #[trigger]
        backend.describes(name, direction, info) && probed_as(
            policy,
            backend,
            name,
            card_name,
            direction,
            info,
            first,
        );
    let info2 = choose|info: Option<InfoView>| #[trigger]
        backend.describes(name, direction, info) && probed_as(
            policy,
            backend,
            name,
            card_name,
            direction,
            info,
            second,
        );
    assert(info1 == info2);
    if let Some(info) = info1 {
        assert(probed_with(policy, backend, name, card_name, direction, info, first));
        assert(probed_with(policy, backend, name, card_name, direction, info, second));
        let (caps1, real1, found1) = choose|
            capabilities: CapabilityView,
            real_hardware: bool,
            found: Seq<Combination>,
        |
            found_as(
                policy,
                backend,
                name,
                card_name,
                direction,
                info,
                capabilities,
                real_hardware,
                found,
                first,
            );
        let (caps2, real2, found2) = choose|
            capabilities: CapabilityView,
            real_hardware: bool,
            found: Seq<Combination>,
        |
            found_as(
                policy,
                backend,
                name,
                card_name,
                direction,
                info,
                capabilities,
                real_hardware,
                found,
                second,
            );
        lemma_capabilities_unique(policy, backend, name, direction, caps1, real1, caps2, real2);
        lemma_searched_unique(
            backend,
            name,
            direction,
            caps1.formats,
            caps1.rates,
            caps1.channels,
            found1,
            found2,
        );
        lemma_assembled_unique(
            backend,
            identity_of(name, card_name, direction, info, real1),
            caps1,
            found1,
            first,
            second,
        );
    }
}

/// An endpoint made of a search that found something is well formed.
pub proof fn lemma_assembled_wf<D, B, T>(
    backend: &Backend<D, B, T>,
    identity: IdentityView,
    capabilities: CapabilityView,
    found: Seq<Combination>,
    e: PcmView,
) where
    D: Fn(&str, Direction) -> Option<PcmInfo>,
    B: Fn(&str, Direction, BoundsQuery) -> Option<(u32, u32)>,
    T: Fn(&str, Direction, Trial) -> bool,

    requires
        capabilities.wf(),
        found.len() > 0,
        combinations_ascending(found),
        forall|c: Combination| #[trigger]
            found.contains(c) ==> capabilities.formats.contains(c.format)
                && capabilities.rates.contains(c.rate) && capabilities.channels.contains(
                c.channels,
            ),
        assembled(backend, identity, capabilities, found, Some(e)),
    ensures
        e.wf(),
{
    let configs = e.configurations;
    assert forall|i: int| 0 <= i < configs.len() implies (#[trigger] configs[i]).combination()
        == found[i] && configs[i].identity == identity && window_wf(configs[i].window) by {
        assert(configured(backend, identity, found[i], configs[i]));
        let reply = choose|reply: Option<(u32, u32)>| #[trigger]
            backend.reports(identity.name, identity.direction, window_query(found[i]), reply)
                && configs[i] == configuration_of(identity, found[i], reply);
        lemma_window_of_wf(reply);
    }
    lemma_formats_ascending_is_by_rank(capabilities.formats);
    lemma_filter_ascending(capabilities.formats, format_key(), uses_format(found));
    lemma_formats_ascending_is_by_rank(e.formats);
    lemma_ascending_is_by_number(capabilities.rates);
    lemma_filter_ascending(capabilities.rates, number_key(), uses_rate(found));
    lemma_ascending_is_by_number(e.rates);
    lemma_ascending_is_by_number(capabilities.channels);
    lemma_filter_ascending(capabilities.channels, number_key(), uses_channels(found));
    lemma_ascending_is_by_number(e.channels);
    assert forall|i: int| 0 <= i < configs.len() implies e.formats.contains(
        (#[trigger] configs[i]).format,
    ) && e.rates.contains(configs[i].rate) && e.channels.contains(configs[i].channels) by {
        let c = found[i];
        assert(found.contains(c));
        let kf = choose|k: int|
            0 <= k < capabilities.formats.len() && capabilities.formats[k] == c.format;
        assert(uses_format(found)(c.format));
        capabilities.formats.lemma_filter_contains(uses_format(found), kf);
        let kr = choose|k: int|
            0 <= k < capabilities.rates.len() && capabilities.rates[k] == c.rate;
        assert(uses_rate(found)(c.rate));
        capabilities.rates.lemma_filter_contains(uses_rate(found), kr);
        let kc = choose|k: int|
            0 <= k < capabilities.channels.len() && capabilities.channels[k] == c.channels;
        assert(uses_channels(found)(c.channels));
        capabilities.channels.lemma_filter_contains(uses_channels(found), kc);
    }
    assert(e.no_dead_entries()) by {
        reveal(PcmView::no_dead_entries);
        assert forall|f: SampleFormat| #[trigger] e.formats.contains(f) implies exists|i: int|
            0 <= i < configs.len() && (#[trigger] configs[i]).format == f by {
            let k = choose|k: int| 0 <= k < e.formats.len() && e.formats[k] == f;
            capabilities.formats.lemma_filter_pred(uses_format(found), k);
            let i = choose|i: int| 0 <= i < found.len() && (#[trigger] found[i]).format == f;
            assert(configs[i].format == f);
        }
        assert forall|r: u32| #[trigger] e.rates.contains(r) implies exists|i: int|
            0 <= i < configs.len() && (#[trigger] configs[i]).rate == r by {
            let k = choose|k: int| 0 <= k < e.rates.len() && e.rates[k] == r;
            capabilities.rates.lemma_filter_pred(uses_rate(found), k);
            let i = choose|i: int| 0 <= i < found.len() && (#[trigger] found[i]).rate == r;
            assert(configs[i].rate == r);
        }
        assert forall|c: u32| #[trigger] e.channels.contains(c) implies exists|i: int|
            0 <= i < configs.len() && (#[trigger] configs[i]).channels == c by {
            let k = choose|k: int| 0 <= k < e.channels.len() && e.channels[k] == c;
            capabilities.channels.lemma_filter_pred(uses_channels(found), k);
            let i = choose|i: int| 0 <= i < found.len() && (#[trigger] found[i]).channels == c;
            assert(configs[i].channels == c);
        }
    }
}

} // verus!
