//! The decisions taken on one Router Advertisement, as a state machine whose
//! states name the outside work that the caller performs next.

use crate::config::Config;
use crate::host::{need_update, needs_update};
use crate::ipv6::{
    address_bit, lemma_first_address_bits, lemma_starts_with_prefix_bits, effective_subnet_length, first_address, generate_first_ipv6_with_prefix,
    generate_unique_random_subnet, is_subnet_candidate, lemma_first_address_keeps_short_prefix,
    lemma_starts_with_prefix_reflexive_symmetric, lemma_starts_with_prefix_transitive,
    lemma_subnet_candidate_in_delegated_prefix, starts_with_prefix, word_mask,
};
use crate::ra::{
    first_prefix_option, ndp_option_end, ndp_option_list, ndp_option_size, ndp_options_fit, parse_prefix_information,
    prefix_information_fields,
    scan_prefix_option, PrefixInformation, PrefixOptionScan, PREFIX_INFORMATION,
};
use vstd::prelude::*;
use vstd::string::StringExecFns;

verus! {

/// Something the handling of a Router Advertisement tells its operator.
#[derive(Debug)]
pub enum Report {
    /// A line for standard output.
    Line(String),
    /// A line for standard error.
    ErrorLine(String),
    /// The decoded Prefix Information, to be shown field by field.
    Prefix(PrefixInformation),
}

/// The text of a `Report`.
pub enum ReportText {
    Line(Seq<char>),
    ErrorLine(Seq<char>),
    Prefix(PrefixInformation),
}

impl View for Report {
    type V = ReportText;

    open spec fn view(&self) -> ReportText {
        match self {
            Report::Line(s) => ReportText::Line(s@),
            Report::ErrorLine(s) => ReportText::ErrorLine(s@),
            Report::Prefix(p) => ReportText::Prefix(*p),
        }
    }
}

/// The texts of a list of reports.
pub open spec fn texts(reports: Seq<Report>) -> Seq<ReportText> {
    reports.map_values(|r: Report| r@)
}

/// The settings that the handling of a Router Advertisement reads.
#[derive(Clone, Debug)]
pub struct HandlerSettings {
    /// The interface that is configured with a subnet of the prefix.
    pub next_interface: String,
    /// The configured subnet length (see `effective_subnet_length`).
    pub subnet_prefix_length: u8,
    /// Whether the downstream interface gets an address of the subnet.
    pub config_interface: bool,
    /// Whether a route to the subnet is set up on the downstream interface.
    pub router: bool,
    /// Whether radvd advertises the subnet downstream.
    pub radvd: bool,
}

/// The part of the helper's settings that the handling reads.
pub open spec fn settings_of(config: Config) -> HandlerSettings {
    HandlerSettings {
        next_interface: config.next_interface,
        subnet_prefix_length: config.subnet_prefix_length,
        config_interface: config.features.config_interface,
        router: config.features.router,
        radvd: config.features.radvd,
    }
}

impl HandlerSettings {
    /// Takes the settings that the handling reads out of `config`.
    pub fn from_config(config: Config) -> (s: HandlerSettings)
        ensures
            s == settings_of(config),
    {
        HandlerSettings {
            next_interface: config.next_interface,
            subnet_prefix_length: config.subnet_prefix_length,
            config_interface: config.features.config_interface,
            router: config.features.router,
            radvd: config.features.radvd,
        }
    }
}

/// Where the handling of one Router Advertisement stands. Each state other
/// than `Finished` and `Aborted` waits for one piece of outside work.
#[derive(Debug)]
pub enum RaHandler {
    /// Waiting for the public IPv6 addresses of `settings.next_interface`.
    AwaitingAddresses { settings: HandlerSettings, prefix: PrefixInformation },
    /// Waiting for every public IPv6 address of `settings.next_interface` to
    /// be removed; `address/prefix_length`, the first address of the chosen
    /// subnet `subnet/prefix_length`, is added next.
    AwaitingDeletion {
        settings: HandlerSettings,
        subnet: [u16; 8],
        prefix_length: u8,
        address: [u16; 8],
    },
    /// Waiting for `address/prefix_length` to be added to
    /// `settings.next_interface`.
    AwaitingAddition {
        settings: HandlerSettings,
        subnet: [u16; 8],
        prefix_length: u8,
        address: [u16; 8],
    },
    /// Waiting for a route to the subnet `subnet/prefix_length` to be set up
    /// on `settings.next_interface`.
    AwaitingRoute { settings: HandlerSettings, subnet: [u16; 8], prefix_length: u8 },
    /// Waiting for radvd to be set up to advertise `prefix/prefix_length` on
    /// `interface`.
    AwaitingRadvd { interface: String, prefix: [u16; 8], prefix_length: u8 },
    /// The handling is over.
    Finished,
    /// The advertisement cannot be handled: the handling stops as by a panic
    /// with this message.
    Aborted(String),
}

/// Adding one to the last word of the first address would overflow.
pub open spec fn first_address_overflows(subnet: Seq<u16>, prefix_length: u8) -> bool {
    prefix_length <= 128 && (subnet[7] & word_mask(prefix_length as int, 7)) >= 0xffff
}

/// The subnet that the handler hands downstream for the advertised prefix
/// `info`, given the configured subnet length `requested`: the advertised
/// prefix itself as a /64 when it is 64 bits or longer, otherwise one of the
/// random subnets of the configured length inside it.
pub open spec fn is_chosen_subnet(
    info: PrefixInformation,
    requested: u8,
    subnet: Seq<u16>,
    prefix_length: u8,
) -> bool {
    if info.prefix_length >= 64 {
        subnet == info.prefix@ && prefix_length == 64
    } else {
        &&& prefix_length == effective_subnet_length(
            info.prefix_length as int,
            requested as int,
        )
        &&& info.prefix_length < prefix_length <= 128
        &&& is_subnet_candidate(subnet, info.prefix@, info.prefix_length as int, prefix_length as int)
    }
}

/// The subnet that the handler chooses, and the address that the downstream
/// interface gets (which is also the prefix handed to radvd: the first
/// address of the chosen subnet), lie inside the advertised prefix whenever
/// that prefix is at most 64 bits long.
pub proof fn lemma_chosen_subnet_in_advertised_prefix(
    info: PrefixInformation,
    requested: u8,
    subnet: Seq<u16>,
    prefix_length: u8,
)
    requires
        is_chosen_subnet(info, requested, subnet, prefix_length),
        info.prefix_length <= 64,
    ensures
        starts_with_prefix(subnet, info.prefix@, info.prefix_length as int),
        starts_with_prefix(
            first_address(subnet, prefix_length as int),
            info.prefix@,
            info.prefix_length as int,
        ),
{
    let plen = info.prefix_length as int;
    if info.prefix_length >= 64 {
        lemma_starts_with_prefix_reflexive_symmetric(info.prefix@, info.prefix@, 64);
        lemma_first_address_keeps_short_prefix(info.prefix@, 64, 64);
    } else {
        lemma_subnet_candidate_in_delegated_prefix(subnet, info.prefix@, plen, prefix_length as int);
        lemma_first_address_keeps_short_prefix(subnet, prefix_length as int, plen);
        let first = first_address(subnet, prefix_length as int);
        lemma_starts_with_prefix_transitive(first, subnet, info.prefix@, plen);
    }
}

/// The handling reads only the next interface, the subnet length and the
/// `config_interface`, `router` and `radvd` features of the settings: two
/// settings that agree on these (and may differ in `upper_interface`,
/// `dhcpv6` and `ndproxy`) start the handling of a message alike, and every
/// later step reads only the settings kept in the state.
pub proof fn lemma_handling_ignores_unused_settings(
    c1: Config,
    c2: Config,
    message: Seq<u8>,
    h: RaHandler,
    reports: Seq<ReportText>,
)
    requires
        c1.next_interface == c2.next_interface,
        c1.subnet_prefix_length == c2.subnet_prefix_length,
        c1.features.config_interface == c2.features.config_interface,
        c1.features.router == c2.features.router,
        c1.features.radvd == c2.features.radvd,
    ensures
        settings_of(c1) == settings_of(c2),
        start_outcome(c1, message, h, reports) == start_outcome(c2, message, h, reports),
{
}

/// The handling reads a Router Advertisement only through its first Prefix
/// Information option: the same message with every other option removed
/// (earlier ones and later ones, later Prefix Information options included)
/// is handled alike, as long as no option has a length byte of 32 or more.
/// `length` is the length byte of that option and `payload` its payload.
pub proof fn lemma_handling_reads_only_first_prefix_option(
    config: Config,
    message: Seq<u8>,
    length: u8,
    payload: Seq<u8>,
    h: RaHandler,
    reports: Seq<ReportText>,
)
    requires
        message.len() >= 16,
        ndp_options_fit(message.skip(16)),
        first_prefix_option(ndp_option_list(message.skip(16))) == Some(payload),
        length < 32,
        payload.len() + 2 <= ndp_option_size(length),
    ensures
        start_outcome(config, message, h, reports) == start_outcome(
            config,
            message.take(16) + seq![PREFIX_INFORMATION, length] + payload,
            h,
            reports,
        ),
{
    let alone = message.take(16) + seq![PREFIX_INFORMATION, length] + payload;
    let option = seq![PREFIX_INFORMATION, length] + payload;
    assert(alone.skip(16) =~= option);
    assert(option.subrange(2, option.len() as int) =~= payload);
    assert(ndp_option_end(option) == option.len());
    let rest = option.skip(option.len() as int);
    assert(rest.len() == 0);
    assert(ndp_option_list(rest) =~= Seq::<(u8, Seq<u8>)>::empty());
    assert(ndp_options_fit(rest));
    assert(ndp_option_list(option) =~= seq![(PREFIX_INFORMATION, payload)]);
    assert(ndp_options_fit(option));
    assert(first_prefix_option(ndp_option_list(option)) == Some(payload));
}

/// The radvd part of the configuration: when enabled, the first address of
/// the subnet is advertised by radvd on the downstream interface.
pub open spec fn radvd_outcome(
    settings: HandlerSettings,
    subnet: Seq<u16>,
    prefix_length: u8,
    h: RaHandler,
    reports: Seq<ReportText>,
) -> bool {
    if settings.radvd {
        if first_address_overflows(subnet, prefix_length) {
            &&& h is Aborted
            &&& reports == seq![ReportText::Line("debug 4"@)]
        } else if prefix_length > 128 {
            &&& h is Finished
            &&& reports == seq![
                ReportText::Line("debug 4"@),
                ReportText::ErrorLine(
                    "生成Radvd前缀失败: "@ + "Prefix length must be less than 128"@,
                ),
            ]
        } else {
            &&& h matches RaHandler::AwaitingRadvd { interface, prefix, prefix_length: l }
            &&& interface@ == settings.next_interface@
            &&& prefix@ == first_address(subnet, prefix_length as int)
            &&& l == prefix_length
            &&& reports == seq![ReportText::Line("debug 4"@)]
        }
    } else {
        h is Finished && reports == Seq::<ReportText>::empty()
    }
}

/// The route part of the configuration: when enabled, a route to the subnet
/// is set up on the downstream interface; then radvd follows.
pub open spec fn route_outcome(
    settings: HandlerSettings,
    subnet: Seq<u16>,
    prefix_length: u8,
    h: RaHandler,
    reports: Seq<ReportText>,
) -> bool {
    if settings.router {
        &&& h matches RaHandler::AwaitingRoute { settings: s, subnet: n, prefix_length: l }
        &&& s == settings
        &&& n@ == subnet
        &&& l == prefix_length
        &&& reports == Seq::<ReportText>::empty()
    } else {
        radvd_outcome(settings, subnet, prefix_length, h, reports)
    }
}

/// The configuration that follows the choice of a subnet: when enabled, the
/// downstream interface gets the subnet's first address (after its public
/// addresses are removed); then the route, then radvd follow.
pub open spec fn configure_outcome(
    settings: HandlerSettings,
    subnet: Seq<u16>,
    prefix_length: u8,
    h: RaHandler,
    reports: Seq<ReportText>,
) -> bool {
    if settings.config_interface {
        if first_address_overflows(subnet, prefix_length) {
            h is Aborted && reports == Seq::<ReportText>::empty()
        } else if prefix_length > 128 {
            &&& h is Finished
            &&& reports == seq![
                ReportText::ErrorLine(
                    "生成下一个接口的IPv6地址失败: "@ + "Prefix length must be less than 128"@,
                ),
            ]
        } else {
            &&& h matches RaHandler::AwaitingDeletion { settings: c, subnet: s, prefix_length: l, address }
            &&& c == settings
            &&& s@ == subnet
            &&& l == prefix_length
            &&& address@ == first_address(subnet, prefix_length as int)
            &&& reports == Seq::<ReportText>::empty()
        }
    } else {
        route_outcome(settings, subnet, prefix_length, h, reports)
    }
}

/// A new `String` holding `head` followed by `tail`.
fn joined(head: &str, tail: &str) -> (r: String)
    ensures
        r@ == head@ + tail@,
{
    let mut s = head.to_string();
    s.append(tail);
    s
}

/// Sets up radvd for the subnet when the configuration asks for it.
fn configure_radvd(settings: HandlerSettings, subnet: [u16; 8], prefix_length: u8) -> (r: (
    RaHandler,
    Vec<Report>,
))
    ensures
        radvd_outcome(settings, subnet@, prefix_length, r.0, texts(r.1@)),
{
    let mut reports: Vec<Report> = Vec::new();
    if !settings.radvd {
        assert(texts(reports@) =~= Seq::<ReportText>::empty());
        return (RaHandler::Finished, reports);
    }
    reports.push(Report::Line("debug 4".to_string()));
    if prefix_length <= 128 && (subnet[7] & crate::ipv6::prefix_mask(prefix_length)[7]) == 0xffff {
        assert(texts(reports@) =~= seq![ReportText::Line("debug 4"@)]);
        return (RaHandler::Aborted("attempt to add with overflow".to_string()), reports);
    }
    match generate_first_ipv6_with_prefix(&subnet, prefix_length) {
        Ok(radvd_prefix) => {
            assert(texts(reports@) =~= seq![ReportText::Line("debug 4"@)]);
            (
                RaHandler::AwaitingRadvd {
                    interface: settings.next_interface,
                    prefix: radvd_prefix,
                    prefix_length,
                },
                reports,
            )
        },
        Err(e) => {
            reports.push(Report::ErrorLine(joined("生成Radvd前缀失败: ", e.as_str())));
            assert(texts(reports@) =~= seq![
                ReportText::Line("debug 4"@),
                ReportText::ErrorLine(
                    "生成Radvd前缀失败: "@ + "Prefix length must be less than 128"@,
                ),
            ]);
            (RaHandler::Finished, reports)
        },
    }
}


/// Asks for a route to the subnet when the settings ask for it, else goes on
/// with radvd.
fn configure_route(settings: HandlerSettings, subnet: [u16; 8], prefix_length: u8) -> (r: (
    RaHandler,
    Vec<Report>,
))
    ensures
        route_outcome(settings, subnet@, prefix_length, r.0, texts(r.1@)),
{
    if !settings.router {
        return configure_radvd(settings, subnet, prefix_length);
    }
    let reports: Vec<Report> = Vec::new();
    assert(texts(reports@) =~= Seq::<ReportText>::empty());
    (RaHandler::AwaitingRoute { settings, subnet, prefix_length }, reports)
}

/// Configures the downstream interface for the subnet when the settings ask
/// for it, then the route and radvd.
fn configure(settings: HandlerSettings, subnet: [u16; 8], prefix_length: u8) -> (r: (RaHandler, Vec<Report>))
    ensures
        configure_outcome(settings, subnet@, prefix_length, r.0, texts(r.1@)),
{
    if !settings.config_interface {
        return configure_route(settings, subnet, prefix_length);
    }
    let reports: Vec<Report> = Vec::new();
    assert(texts(reports@) =~= Seq::<ReportText>::empty());
    if prefix_length <= 128 && (subnet[7] & crate::ipv6::prefix_mask(prefix_length)[7]) == 0xffff {
        return (RaHandler::Aborted("attempt to add with overflow".to_string()), reports);
    }
    match generate_first_ipv6_with_prefix(&subnet, prefix_length) {
        Ok(address) => (
            RaHandler::AwaitingDeletion { settings, subnet, prefix_length, address },
            reports,
        ),
        Err(e) => {
            let mut reports = reports;
            reports.push(Report::ErrorLine(joined("生成下一个接口的IPv6地址失败: ", e.as_str())));
            assert(texts(reports@) =~= seq![
                ReportText::ErrorLine(
                    "生成下一个接口的IPv6地址失败: "@ + "Prefix length must be less than 128"@,
                ),
            ]);
            (RaHandler::Finished, reports)
        },
    }
}

/// What starting to handle the ICMPv6 message `message` leads to.
pub open spec fn start_outcome(
    config: Config,
    message: Seq<u8>,
    h: RaHandler,
    reports: Seq<ReportText>,
) -> bool {
    if message.len() < 16 {
        h is Finished && reports == seq![ReportText::Line("Not a Router Advertisement packet"@)]
    } else {
        if !ndp_options_fit(message.skip(16)) {
            h is Aborted && reports == Seq::<ReportText>::empty()
        } else {
            match first_prefix_option(ndp_option_list(message.skip(16))) {
                None => h is Finished && reports == seq![
                    ReportText::Line("Not a Prefix Information packet"@),
                ],
                Some(payload) => if payload.len() < 30 {
                    h is Aborted && reports == Seq::<ReportText>::empty()
                } else {
                    &&& h matches RaHandler::AwaitingAddresses { settings: s, prefix: info }
                    &&& s == settings_of(config)
                    &&& prefix_information_fields(info, payload)
                    &&& reports == seq![ReportText::Prefix(info)]
                },
            }
        }
    }
}

/// What the public addresses `addresses` (or the failure to read them) lead
/// to while the handler waits for them with the advertised prefix `info`.
pub open spec fn addresses_outcome(
    settings: HandlerSettings,
    info: PrefixInformation,
    addresses: Result<Vec<([u16; 8], u8)>, String>,
    h: RaHandler,
    reports: Seq<ReportText>,
) -> bool {
    match addresses {
        Err(e) => h is Finished && reports == seq![
            ReportText::ErrorLine("Failed to get ipv6 address : "@ + e@),
        ],
        Ok(a) => if !needs_update(a@, info.prefix@, info.prefix_length as int) {
            h is Finished && reports == seq![
                ReportText::Line("The next interface's ipv6 address is already updated"@),
            ]
        } else {
            let len = effective_subnet_length(
                info.prefix_length as int,
                settings.subnet_prefix_length as int,
            );
            let failure = "生成随机子网pd前缀失败: "@;
            &&& reports.len() >= 2
            &&& reports.take(2) == seq![
                ReportText::Line("The next interface's ipv6 address is not updated"@),
                ReportText::Line("debug 1.1"@),
            ]
            &&& (info.prefix_length < 64 && len > 128) ==> (h is Finished && reports.skip(2)
                == seq![ReportText::ErrorLine(failure + "Subnet prefix length must be less than 128"@)])
            &&& (info.prefix_length < 64 && len <= 128 && info.prefix_length > len) ==> (h is Finished
                && reports.skip(2) == seq![
                ReportText::ErrorLine(failure + "Mainnet prefix length must be less than 128"@),
            ])
            &&& (info.prefix_length < 64 && len <= 128 && info.prefix_length == len) ==> (h
                is Finished && reports.skip(2) == seq![
                ReportText::ErrorLine(
                    failure + "Mainnet prefix length must be less than subnet prefix length"@,
                ),
            ])
            &&& (info.prefix_length >= 64 || info.prefix_length < len <= 128) ==> exists|
                subnet: Seq<u16>,
                prefix_length: u8,
            |
                is_chosen_subnet(info, settings.subnet_prefix_length, subnet, prefix_length)
                    && #[trigger] configure_outcome(
                    settings,
                    subnet,
                    prefix_length,
                    h,
                    reports.skip(2),
                )
        },
    }
}

/// What the handler hands downstream when the downstream interface must be
/// renumbered. For an advertised prefix of 64 bits or more it is the prefix
/// itself as a /64. For a shorter one it is a subnet of exactly the
/// configured length (above 128: the advertised length plus the excess over
/// 128), longer than the advertised prefix and agreeing with it on every
/// advertised bit. The address given to the interface, and the prefix handed
/// to radvd, keep the subnet's bits, have their last bit set and every other
/// bit clear.
pub proof fn lemma_handed_down_subnet(
    settings: HandlerSettings,
    info: PrefixInformation,
    addresses: Vec<([u16; 8], u8)>,
    h: RaHandler,
    reports: Seq<ReportText>,
)
    requires
        addresses_outcome(settings, info, Ok(addresses), h, reports),
        h is AwaitingDeletion || h is AwaitingRoute || h is AwaitingRadvd,
    ensures
        ({
            let (subnet, l) = match h {
                RaHandler::AwaitingDeletion { subnet, prefix_length, .. } => (subnet@, prefix_length),
                RaHandler::AwaitingRoute { subnet, prefix_length, .. } => (subnet@, prefix_length),
                RaHandler::AwaitingRadvd { prefix_length, .. } => (info.prefix@, prefix_length),
                _ => (info.prefix@, 0u8),
            };
            let plen = info.prefix_length as int;
            let requested = settings.subnet_prefix_length as int;
            &&& plen >= 64 ==> subnet == info.prefix@ && l == 64
            &&& plen < 64 ==> {
                &&& l == if requested > 128 {
                    plen + requested - 128
                } else {
                    requested
                }
                &&& plen < l <= 128
                &&& forall|k: int|
                    0 <= k < plen ==> #[trigger] address_bit(subnet, k) == address_bit(
                        info.prefix@,
                        k,
                    )
            }
        }),
        h matches RaHandler::AwaitingDeletion { subnet, prefix_length, address, .. } ==> (
        prefix_length <= 127 ==> forall|k: int|
            0 <= k < 128 ==> #[trigger] address_bit(address@, k) == if k < prefix_length {
                address_bit(subnet@, k)
            } else {
                k == 127
            }),
        h matches RaHandler::AwaitingRadvd { prefix, prefix_length, .. } ==> (prefix_length <= 127
            ==> forall|k: int|
            0 <= k < 128 ==> {
                &&& k < prefix_length && k < info.prefix_length ==> #[trigger] address_bit(prefix@, k)
                    == address_bit(info.prefix@, k)
                &&& k >= prefix_length ==> address_bit(prefix@, k) == (k == 127)
            }),
{
    let rest = reports.skip(2);
    let plen = info.prefix_length as int;
    assert(needs_update(addresses@, info.prefix@, plen));
    let (c, l) = choose|c: Seq<u16>, l: u8|
        is_chosen_subnet(info, settings.subnet_prefix_length, c, l) && #[trigger] configure_outcome(
            settings,
            c,
            l,
            h,
            rest,
        );
    assert(is_chosen_subnet(info, settings.subnet_prefix_length, c, l));
    assert(configure_outcome(settings, c, l, h, rest));
    if plen < 64 {
        lemma_subnet_candidate_in_delegated_prefix(c, info.prefix@, plen, l as int);
        lemma_starts_with_prefix_bits(c, info.prefix@, plen);
    }
    if l <= 127 {
        lemma_first_address_bits(c, l as int);
    }
    if plen >= 64 {
        lemma_starts_with_prefix_bits(c, info.prefix@, plen);
    }
}

impl RaHandler {
    /// Starts handling the ICMPv6 message `message` received on the upstream
    /// interface, under the settings `config`.
    pub fn start(config: Config, message: &[u8]) -> (r: (RaHandler, Vec<Report>))
        ensures
            start_outcome(config, message@, r.0, texts(r.1@)),
    {
        let mut reports: Vec<Report> = Vec::new();
        match scan_prefix_option(message) {
            PrefixOptionScan::NotRouterAdvert => {
                reports.push(Report::Line("Not a Router Advertisement packet".to_string()));
                assert(texts(reports@) =~= seq![
                    ReportText::Line("Not a Router Advertisement packet"@),
                ]);
                (RaHandler::Finished, reports)
            },
            PrefixOptionScan::NoPrefixOption => {
                reports.push(Report::Line("Not a Prefix Information packet".to_string()));
                assert(texts(reports@) =~= seq![
                    ReportText::Line("Not a Prefix Information packet"@),
                ]);
                (RaHandler::Finished, reports)
            },
            PrefixOptionScan::LengthOverflow => {
                assert(texts(reports@) =~= Seq::<ReportText>::empty());
                (RaHandler::Aborted("attempt to multiply with overflow".to_string()), reports)
            },
            PrefixOptionScan::Found(payload) => {
                if payload.len() < 30 {
                    assert(texts(reports@) =~= Seq::<ReportText>::empty());
                    return (
                        RaHandler::Aborted(
                            "the Prefix Information option is shorter than 30 bytes".to_string(),
                        ),
                        reports,
                    );
                }
                let info = parse_prefix_information(payload.as_slice());
                reports.push(Report::Prefix(info));
                assert(texts(reports@) =~= seq![ReportText::Prefix(info)]);
                (
                    RaHandler::AwaitingAddresses {
                        settings: HandlerSettings::from_config(config),
                        prefix: info,
                    },
                    reports,
                )
            },
        }
    }

    /// Continues with the public IPv6 addresses of the downstream interface,
    /// or the error met while reading them.
    pub fn on_addresses(self, addresses: Result<Vec<([u16; 8], u8)>, String>) -> (r: (
        RaHandler,
        Vec<Report>,
    ))
        requires
            self is AwaitingAddresses,
        ensures
            self matches RaHandler::AwaitingAddresses { settings, prefix } && addresses_outcome(
                settings,
                prefix,
                addresses,
                r.0,
                texts(r.1@),
            ),
    {
        let (settings, info) = match self {
            RaHandler::AwaitingAddresses { settings, prefix } => (settings, prefix),
            _ => {
                assert(false);
                return (RaHandler::Finished, Vec::new());
            },
        };
        let mut reports: Vec<Report> = Vec::new();
        let ipv6s = match addresses {
            Ok(ipv6s) => ipv6s,
            Err(e) => {
                reports.push(Report::ErrorLine(joined("Failed to get ipv6 address : ", e.as_str())));
                assert(texts(reports@) =~= seq![
                    ReportText::ErrorLine("Failed to get ipv6 address : "@ + e@),
                ]);
                return (RaHandler::Finished, reports);
            },
        };
        if !need_update(&ipv6s, &info.prefix, info.prefix_length) {
            reports.push(
                Report::Line("The next interface's ipv6 address is already updated".to_string()),
            );
            assert(texts(reports@) =~= seq![
                ReportText::Line("The next interface's ipv6 address is already updated"@),
            ]);
            return (RaHandler::Finished, reports);
        }
        reports.push(Report::Line("The next interface's ipv6 address is not updated".to_string()));
        reports.push(Report::Line("debug 1.1".to_string()));
        let ghost head = texts(reports@);
        assert(head =~= seq![
            ReportText::Line("The next interface's ipv6 address is not updated"@),
            ReportText::Line("debug 1.1"@),
        ]);
        let (subnet, subnet_prefix_length) = if info.prefix_length >= 64 {
            (info.prefix, 64u8)
        } else {
            match generate_unique_random_subnet(
                &info.prefix,
                info.prefix_length,
                settings.subnet_prefix_length,
                1,
            ) {
                Ok((subnets, len)) => (subnets[0], len),
                Err(e) => {
                    reports.push(Report::ErrorLine(joined("生成随机子网pd前缀失败: ", e.as_str())));
                    assert(texts(reports@) =~= head + seq![
                        ReportText::ErrorLine("生成随机子网pd前缀失败: "@ + e@),
                    ]);
                    assert(texts(reports@).take(2) =~= head);
                    assert(texts(reports@).skip(2) =~= seq![
                        ReportText::ErrorLine("生成随机子网pd前缀失败: "@ + e@),
                    ]);
                    return (RaHandler::Finished, reports);
                },
            }
        };
        assert(is_chosen_subnet(info, settings.subnet_prefix_length, subnet@, subnet_prefix_length));
        let ghost cfg = settings;
        let (next, more) = configure(settings, subnet, subnet_prefix_length);
        let ghost tail = texts(more@);
        let mut more = more;
        reports.append(&mut more);
        assert(texts(reports@) =~= head + tail);
        assert(texts(reports@).take(2) =~= head);
        assert(texts(reports@).skip(2) =~= tail);
        assert(configure_outcome(cfg, subnet@, subnet_prefix_length, next, texts(reports@).skip(2)));
        (next, reports)
    }

    /// Continues after the removal of the downstream interface's public
    /// addresses, or the error it met.
    pub fn on_deleted(self, result: Result<(), String>) -> (r: (RaHandler, Vec<Report>))
        requires
            self is AwaitingDeletion,
        ensures
            self matches RaHandler::AwaitingDeletion { settings, subnet, prefix_length, address } && match result {
                Ok(()) => r.0 == RaHandler::AwaitingAddition { settings, subnet, prefix_length, address }
                    && texts(r.1@) == Seq::<ReportText>::empty(),
                Err(e) => r.0 is Finished && texts(r.1@) == seq![
                    ReportText::ErrorLine("删除下一个接口的其它公共IPv6地址失败: "@ + e@),
                ],
            },
    {
        let mut reports: Vec<Report> = Vec::new();
        match self {
            RaHandler::AwaitingDeletion { settings, subnet, prefix_length, address } => {
                match result {
                    Ok(()) => {
                        assert(texts(reports@) =~= Seq::<ReportText>::empty());
                        (RaHandler::AwaitingAddition { settings, subnet, prefix_length, address }, reports)
                    },
                    Err(e) => {
                        reports.push(
                            Report::ErrorLine(joined("删除下一个接口的其它公共IPv6地址失败: ", e.as_str())),
                        );
                        assert(texts(reports@) =~= seq![
                            ReportText::ErrorLine("删除下一个接口的其它公共IPv6地址失败: "@ + e@),
                        ]);
                        (RaHandler::Finished, reports)
                    },
                }
            },
            _ => {
                assert(false);
                (RaHandler::Finished, reports)
            },
        }
    }

    /// Continues after the new address was added to the downstream interface,
    /// or the error it met.
    pub fn on_added(self, result: Result<(), String>) -> (r: (RaHandler, Vec<Report>))
        requires
            self is AwaitingAddition,
        ensures
            self matches RaHandler::AwaitingAddition { settings, subnet, prefix_length, address } && match result {
                Ok(()) => route_outcome(settings, subnet@, prefix_length, r.0, texts(r.1@)),
                Err(e) => r.0 is Finished && texts(r.1@) == seq![
                    ReportText::ErrorLine("附加IPv6地址失败: "@ + e@),
                ],
            },
    {
        match self {
            RaHandler::AwaitingAddition { settings, subnet, prefix_length, address } => {
                match result {
                    Ok(()) => configure_route(settings, subnet, prefix_length),
                    Err(e) => {
                        let mut reports: Vec<Report> = Vec::new();
                        reports.push(Report::ErrorLine(joined("附加IPv6地址失败: ", e.as_str())));
                        assert(texts(reports@) =~= seq![
                            ReportText::ErrorLine("附加IPv6地址失败: "@ + e@),
                        ]);
                        (RaHandler::Finished, reports)
                    },
                }
            },
            _ => {
                assert(false);
                (RaHandler::Finished, Vec::new())
            },
        }
    }

    /// Continues with radvd after the route to the subnet was set up (the
    /// outcome of setting it up is not looked at).
    pub fn on_route_configured(self) -> (r: (RaHandler, Vec<Report>))
        requires
            self is AwaitingRoute,
        ensures
            self matches RaHandler::AwaitingRoute { settings, subnet, prefix_length } && radvd_outcome(
                settings,
                subnet@,
                prefix_length,
                r.0,
                texts(r.1@),
            ),
    {
        match self {
            RaHandler::AwaitingRoute { settings, subnet, prefix_length } => {
                configure_radvd(settings, subnet, prefix_length)
            },
            _ => {
                assert(false);
                (RaHandler::Finished, Vec::new())
            },
        }
    }

    /// Finishes after radvd was set up, or reports the error it met.
    pub fn on_radvd_configured(self, result: Result<(), String>) -> (r: (RaHandler, Vec<Report>))
        requires
            self is AwaitingRadvd,
        ensures
            r.0 is Finished,
            match result {
                Ok(()) => texts(r.1@) == Seq::<ReportText>::empty(),
                Err(e) => texts(r.1@) == seq![ReportText::ErrorLine("配置Radvd失败: "@ + e@)],
            },
    {
        let mut reports: Vec<Report> = Vec::new();
        match result {
            Ok(()) => {
                assert(texts(reports@) =~= Seq::<ReportText>::empty());
            },
            Err(e) => {
                reports.push(Report::ErrorLine(joined("配置Radvd失败: ", e.as_str())));
                assert(texts(reports@) =~= seq![ReportText::ErrorLine("配置Radvd失败: "@ + e@)]);
            },
        }
        (RaHandler::Finished, reports)
    }
}

} // verus!
