//! The `show` subcommand: the daemon and the interfaces at a glance.
use vstd::prelude::*;
use vstd::string::*;

use crate::json::{
    int_json, int_view, json_pretty, list_of, new_dict, new_list, pretty_written, push_json,
    put_entry, str_json, strings_json, strings_view, with_opt, Json, JsonView,
};
use crate::styled::{
    no_spans, plain, push_all, push_plain, push_styled, render, rendering, span_views, styled, Span,
    SpanView, Style,
};
use crate::text::{
    ascending, cat2, cat3, cat4, cat5, decimal, decimal_int, decimal_int_text, decimal_text,
    has_string, join, joined, le_text, push_text, same, text_le, views,
};

verus! {

/// The output formats of the overview.
#[derive(Clone, Copy, Debug, PartialEq, Eq, Structural)]
pub enum ShowOutputFormat {
    Text,
    Json,
}

/// The arguments of the `show` subcommand.
#[derive(Clone, Copy, Debug)]
pub struct ShowArgs {
    pub output: ShowOutputFormat,
}

/// The daemon: its status, and for how long it has been up.
#[derive(Debug)]
pub struct VarlinkDaemonInfo {
    pub status: String,
    pub uptime_seconds: Option<i64>,
}

/// A policy of an interface.
#[derive(Debug)]
pub struct VarlinkPolicyInfo {
    pub name: String,
    pub policy_type: String,
}

/// The DHCP lease of an interface.
#[derive(Debug)]
pub struct VarlinkDhcpInfo {
    pub state: String,
    pub lease_address: Option<String>,
    pub lease_time_secs: Option<i64>,
    pub lease_remaining_secs: Option<i64>,
}

/// A field of an interface that is not as its policies ask for.
#[derive(Debug)]
pub struct VarlinkDriftEntry {
    pub field_name: String,
    pub description: String,
}

/// What is known of an interface.
#[derive(Debug)]
pub struct VarlinkInterfaceInfo {
    pub name: String,
    pub enabled: Option<bool>,
    pub carrier: Option<bool>,
    pub addresses: Option<Vec<String>>,
    pub policies: Option<Vec<VarlinkPolicyInfo>>,
    pub dhcp: Option<VarlinkDhcpInfo>,
    pub config_state: Option<String>,
    pub config_drift: Option<Vec<VarlinkDriftEntry>>,
}

/// The overview: the daemon and the interfaces.
#[derive(Debug)]
pub struct VarlinkShowInfo {
    pub daemon: VarlinkDaemonInfo,
    pub interfaces: Vec<VarlinkInterfaceInfo>,
}

// ── Durations ────────────────────────────────────────────────────────────────

/// A number in its unit, and the rest in the next smaller unit where there is any.
pub open spec fn two_units(
    large: nat,
    unit: Seq<char>,
    small: nat,
    small_unit: Seq<char>,
) -> Seq<char> {
    if small == 0 {
        decimal(large) + unit
    } else {
        decimal(large) + unit + " "@ + decimal(small) + small_unit
    }
}

/// A duration in its two largest units.
pub open spec fn duration_text(secs: nat) -> Seq<char> {
    if secs < 60 {
        decimal(secs) + "s"@
    } else if secs < 3600 {
        two_units(secs / 60, "m"@, secs % 60, "s"@)
    } else if secs < 86400 {
        two_units(secs / 3600, "h"@, secs % 3600 / 60, "m"@)
    } else {
        two_units(secs / 86400, "d"@, secs % 86400 / 3600, "h"@)
    }
}

/// A number in its unit, and the rest in the next smaller unit.
fn in_two_units(large: u64, unit: &str, small: u64, small_unit: &str) -> (r: String)
    ensures
        r@ == two_units(large as nat, unit@, small as nat, small_unit@),
{
    let first = decimal_text(large);
    if small == 0 {
        cat2(first.as_str(), unit)
    } else {
        let rest = decimal_text(small);
        cat5(first.as_str(), unit, " ", rest.as_str(), small_unit)
    }
}

/// A duration in its two largest units.
pub fn format_duration(secs: u64) -> (r: String)
    ensures
        r@ == duration_text(secs as nat),
{
    if secs < 60 {
        let digits = decimal_text(secs);
        cat2(digits.as_str(), "s")
    } else if secs < 3600 {
        in_two_units(secs / 60, "m", secs % 60, "s")
    } else if secs < 86400 {
        in_two_units(secs / 3600, "h", secs % 3600 / 60, "m")
    } else {
        in_two_units(secs / 86400, "d", secs % 86400 / 3600, "h")
    }
}

/// A signed number of seconds read as an unsigned one.
pub open spec fn as_unsigned(n: int) -> nat {
    if n < 0 {
        (n + 0x1_0000_0000_0000_0000) as nat
    } else {
        n as nat
    }
}

/// A signed number of seconds read as an unsigned one.
fn to_unsigned(n: i64) -> (r: u64)
    ensures
        r == as_unsigned(n as int),
{
    if n < 0 {
        u64::MAX - (-(n + 1)) as u64
    } else {
        n as u64
    }
}

// ── Interfaces without a daemon ──────────────────────────────────────────────

/// An entity as the kernel reports it: its name, and what an overview reads of
/// its fields.
#[derive(Debug)]
pub struct KernelEntity {
    pub name: Option<String>,
    pub enabled: Option<bool>,
    pub carrier: Option<bool>,
    pub addresses: Option<Vec<String>>,
}

/// The positions of the entities that are shown: the first one of each name.
pub open spec fn shown_positions(entities: Seq<KernelEntity>, n: nat) -> Seq<int>
    decreases n,
{
    if n == 0 || n > entities.len() {
        Seq::empty()
    } else {
        let before = shown_positions(entities, (n - 1) as nat);
        match entities[n - 1].name {
            Some(name) => if names_at(entities, before).contains(name@) {
                before
            } else {
                before.push(n - 1)
            },
            None => before,
        }
    }
}

/// The names of the entities at some positions.
pub open spec fn names_at(entities: Seq<KernelEntity>, at: Seq<int>) -> Seq<Seq<char>> {
    at.map_values(|i: int| entities[i].name->0@)
}

/// The strings of an optional list.
pub open spec fn opt_views(v: Option<Vec<String>>) -> Option<Seq<Seq<char>>> {
    match v {
        Some(list) => Some(views(list@)),
        None => None,
    }
}

/// Whether an interface shows an entity: with its name, its state, and its
/// addresses where there are any, and with nothing that only a daemon knows.
pub open spec fn shows_entity(info: VarlinkInterfaceInfo, entity: KernelEntity) -> bool {
    &&& entity.name is Some
    &&& info.name@ == entity.name->0@
    &&& info.enabled == entity.enabled
    &&& info.carrier == entity.carrier
    &&& opt_views(info.addresses) == (match opt_views(entity.addresses) {
        Some(list) if list.len() > 0 => Some(list),
        _ => None,
    })
    &&& info.policies is None
    &&& info.dhcp is None
    &&& info.config_state is None
    &&& info.config_drift is None
}

/// The interfaces of an overview without a daemon: the entities that have a name,
/// each name once.
pub fn build_fallback_interfaces(entities: &[KernelEntity]) -> (r: Vec<VarlinkInterfaceInfo>)
    ensures
        r@.len() == shown_positions(entities@, entities@.len()).len(),
        forall|i: int|
            0 <= i < r@.len() ==> shows_entity(
                #[trigger] r@[i],
                entities@[shown_positions(entities@, entities@.len())[i]],
            ),
{
    let mut seen: Vec<String> = Vec::new();
    let mut out: Vec<VarlinkInterfaceInfo> = Vec::new();
    let n: usize = entities.len();
    let mut i: usize = 0;
    assert(views(seen@) == names_at(entities@, shown_positions(entities@, 0)));
    while i < n
        invariant
            i <= n,
            n == entities@.len(),
            views(seen@) == names_at(entities@, shown_positions(entities@, i as nat)),
            out@.len() == shown_positions(entities@, i as nat).len(),
            forall|k: int|
                0 <= k < out@.len() ==> shows_entity(
                    #[trigger] out@[k],
                    entities@[shown_positions(entities@, i as nat)[k]],
                ),
        decreases n - i,
    {
        let entity = &entities[i];
        if let Some(name) = &entity.name {
            if !has_string(seen.as_slice(), name.as_str()) {
                push_text(&mut seen, name.clone());
                proof {
                    let before = shown_positions(entities@, i as nat);
                    assert(names_at(entities@, before.push(i as int)) == names_at(
                        entities@,
                        before,
                    ).push(name@));
                }
                let addresses = match &entity.addresses {
                    Some(list) if list.len() > 0 => Some(copy_strings(list)),
                    _ => None,
                };
                assert(opt_views(entity.addresses) is Some ==> opt_views(entity.addresses)->0.len()
                    == entity.addresses->0@.len());
                out.push(
                    VarlinkInterfaceInfo {
                        name: name.clone(),
                        enabled: entity.enabled,
                        carrier: entity.carrier,
                        addresses,
                        policies: None,
                        dhcp: None,
                        config_state: None,
                        config_drift: None,
                    },
                );
            }
        }
        i = i + 1;
    }
    out
}

/// A copy of a list of strings.
fn copy_strings(list: &Vec<String>) -> (r: Vec<String>)
    ensures
        views(r@) == views(list@),
{
    let mut out: Vec<String> = Vec::new();
    let n: usize = list.len();
    let mut i: usize = 0;
    assert(views(out@) == views(list@).take(0));
    while i < n
        invariant
            i <= n,
            n == list@.len(),
            views(out@) == views(list@).take(i as int),
        decreases n - i,
    {
        push_text(&mut out, list[i].clone());
        assert(views(list@).take(i + 1) == views(list@).take(i as int).push(list@[i as int]@));
        i = i + 1;
    }
    assert(views(list@).take(n as int) == views(list@));
    out
}

/// An interface put into a list at `at`, or before it as long as the interface
/// there stands behind it by name.
pub open spec fn placed(
    list: Seq<VarlinkInterfaceInfo>,
    info: VarlinkInterfaceInfo,
    at: int,
) -> Seq<VarlinkInterfaceInfo>
    decreases at,
{
    if at <= 0 || text_le(list[at - 1].name@, info.name@) {
        list.insert(at, info)
    } else {
        placed(list, info, at - 1)
    }
}

/// The interfaces in ascending order of their names; those of one name stay in
/// their order.
pub open spec fn by_name(list: Seq<VarlinkInterfaceInfo>) -> Seq<VarlinkInterfaceInfo>
    decreases list.len(),
{
    if list.len() == 0 {
        list
    } else {
        let before = by_name(list.drop_last());
        placed(before, list.last(), before.len() as int)
    }
}

/// The names of interfaces.
pub open spec fn interface_names(list: Seq<VarlinkInterfaceInfo>) -> Seq<Seq<char>> {
    list.map_values(|i: VarlinkInterfaceInfo| i.name@)
}

/// Placing keeps the length, and the other interfaces in their order.
proof fn lemma_placed(list: Seq<VarlinkInterfaceInfo>, info: VarlinkInterfaceInfo, at: int)
    requires
        0 <= at <= list.len(),
        ascending(interface_names(list)),
        forall|k: int| at <= k < list.len() ==> !text_le((#[trigger] list[k]).name@, info.name@),
    ensures
        placed(list, info, at).len() == list.len() + 1,
        ascending(interface_names(placed(list, info, at))),
        placed(list, info, at).to_multiset() == list.to_multiset().insert(info),
    decreases at,
{
    if at <= 0 || text_le(list[at - 1].name@, info.name@) {
        let after = list.insert(at, info);
        let names = interface_names(list);
        let new_names = interface_names(after);
        assert forall|i: int, j: int| 0 <= i < j < new_names.len() implies text_le(
            #[trigger] new_names[i],
            #[trigger] new_names[j],
        ) by {
            if i == at {
                assert(after[j] == list[j - 1]);
                crate::text::lemma_text_le_total(list[j - 1].name@, info.name@);
            } else if j == at {
                assert(after[i] == list[i]);
                if i < at - 1 {
                    assert(text_le(names[i], names[at - 1]));
                    crate::text::lemma_text_le_transitive(names[i], names[at - 1], info.name@);
                }
            } else {
                let x = if i < at {
                    i
                } else {
                    i - 1
                };
                let y = if j < at {
                    j
                } else {
                    j - 1
                };
                assert(new_names[i] == names[x]);
                assert(new_names[j] == names[y]);
            }
        }
        vstd::seq_lib::to_multiset_insert(list, at, info);
    } else {
        lemma_placed(list, info, at - 1);
    }
}

/// Sorting by name keeps the interfaces, and brings their names into ascending
/// order.
pub proof fn sorted_by_name(list: Seq<VarlinkInterfaceInfo>)
    ensures
        ascending(interface_names(by_name(list))),
        by_name(list).to_multiset() == list.to_multiset(),
        by_name(list).len() == list.len(),
    decreases list.len(),
{
    if list.len() > 0 {
        sorted_by_name(list.drop_last());
        let before = by_name(list.drop_last());
        lemma_placed(before, list.last(), before.len() as int);
        assert(list == list.drop_last().push(list.last()));
        vstd::seq_lib::to_multiset_build(list.drop_last(), list.last());
    }
}

/// The interfaces in ascending order of their names.
pub fn sort_interfaces(list: Vec<VarlinkInterfaceInfo>) -> (r: Vec<VarlinkInterfaceInfo>)
    ensures
        r@ == by_name(list@),
{
    let ghost all = list@;
    let mut out: Vec<VarlinkInterfaceInfo> = Vec::new();
    assert(all.take(0).len() == 0);
    for info in it: list
        invariant
            it.seq() == all,
            out@ == by_name(all.take(it.index())),
    {
        let ghost before = out@;
        let ghost taken = all.take(it.index());
        let mut at: usize = out.len();
        while at > 0 && !le_text(out[at - 1].name.as_str(), info.name.as_str())
            invariant
                at <= out@.len(),
                out@ == before,
                placed(before, info, before.len() as int) == placed(before, info, at as int),
            decreases at,
        {
            at = at - 1;
        }
        proof {
            let longer = all.take(it.index() + 1);
            assert(longer.drop_last() == taken);
            assert(longer.last() == info);
        }
        out.insert(at, info);
    }
    assert(all.take(all.len() as int) == all);
    out
}

/// The overview without a daemon.
pub fn fallback_info(entities: &[KernelEntity]) -> (r: VarlinkShowInfo)
    ensures
        r.daemon.status@ == "not_running"@,
        r.daemon.uptime_seconds is None,
        r.interfaces@.len() == shown_positions(entities@, entities@.len()).len(),
        forall|i: int|
            0 <= i < r.interfaces@.len() ==> shows_entity(
                #[trigger] r.interfaces@[i],
                entities@[shown_positions(entities@, entities@.len())[i]],
            ),
{
    VarlinkShowInfo {
        daemon: VarlinkDaemonInfo { status: "not_running".to_owned(), uptime_seconds: None },
        interfaces: build_fallback_interfaces(entities),
    }
}

/// What is said where an overview cannot be had: that the connection was lost, or
/// the error itself.
pub fn show_error_message(connection_lost: bool, error: &str) -> (r: String)
    ensures
        r@ == (if connection_lost {
            "Error: lost connection to netfyr daemon"@
        } else {
            "Error: "@ + error@
        }),
{
    if connection_lost {
        "Error: lost connection to netfyr daemon".to_owned()
    } else {
        cat2("Error: ", error)
    }
}

// ── Text ─────────────────────────────────────────────────────────────────────

/// The state of an interface: whether it is up, and whether it has a carrier.
pub open spec fn state_span(enabled: bool, carrier: bool) -> SpanView {
    if enabled && carrier {
        styled(Style::Green, "up, carrier"@)
    } else if enabled {
        styled(Style::Yellow, "up, no-carrier"@)
    } else if carrier {
        styled(Style::Yellow, "down, carrier"@)
    } else {
        styled(Style::Red, "down"@)
    }
}

/// The lines on the daemon.
pub open spec fn daemon_lines(daemon: VarlinkDaemonInfo) -> Seq<SpanView> {
    let status = if daemon.status@ == "not_running"@ {
        "not running"@
    } else {
        daemon.status@
    };
    let head = Seq::empty().push(plain("Daemon\n"@)).push(
        plain("  Status:  "@ + status + "\n"@),
    );
    match daemon.uptime_seconds {
        Some(secs) => head.push(
            plain("  Uptime:  "@ + duration_text(as_unsigned(secs as int)) + "\n"@),
        ),
        None => head,
    }
}

/// The names and types of policies.
pub open spec fn policy_texts(policies: Seq<VarlinkPolicyInfo>) -> Seq<Seq<char>> {
    policies.map_values(|p: VarlinkPolicyInfo| p.name@ + " ("@ + p.policy_type@ + ")"@)
}

/// The line on the state of an interface.
pub open spec fn state_line(info: VarlinkInterfaceInfo) -> Seq<SpanView> {
    match info.enabled {
        Some(enabled) => Seq::empty().push(plain("    State:     "@)).push(
            state_span(enabled, info.carrier == Some(true)),
        ).push(plain("\n"@)),
        None => Seq::empty(),
    }
}

/// The line on the addresses of an interface.
pub open spec fn addresses_line(info: VarlinkInterfaceInfo) -> Seq<SpanView> {
    match info.addresses {
        Some(list) if list@.len() > 0 => Seq::empty().push(
            plain("    Addresses: "@ + joined(views(list@), ", "@) + "\n"@),
        ),
        _ => Seq::empty(),
    }
}

/// The line on the policies of an interface.
pub open spec fn policies_line(info: VarlinkInterfaceInfo) -> Seq<SpanView> {
    match info.policies {
        Some(list) if list@.len() > 0 => Seq::empty().push(
            plain("    Policies:  "@ + joined(policy_texts(list@), ", "@) + "\n"@),
        ),
        _ => Seq::empty(),
    }
}

/// The lines on the DHCP lease of an interface.
pub open spec fn dhcp_lines(info: VarlinkInterfaceInfo) -> Seq<SpanView> {
    match info.dhcp {
        None => Seq::empty(),
        Some(dhcp) => {
            let head = Seq::empty().push(plain("    DHCP:      "@ + dhcp.state@ + "\n"@));
            match dhcp.lease_time_secs {
                Some(total) if dhcp.state@ == "running"@ => {
                    let remaining: int = match dhcp.lease_remaining_secs {
                        Some(n) => n as int,
                        None => 0,
                    };
                    head.push(
                        plain(
                            "    Lease:     "@ + decimal_int(total as int) + "s total, "@
                                + duration_text(as_unsigned(remaining)) + " remaining\n"@,
                        ),
                    )
                },
                _ => head,
            }
        },
    }
}

/// The lines on the first `n` fields that are not as asked for.
pub open spec fn drift_lines(drift: Seq<VarlinkDriftEntry>, n: nat) -> Seq<SpanView>
    decreases n,
{
    if n == 0 || n > drift.len() {
        Seq::empty()
    } else {
        drift_lines(drift, (n - 1) as nat).push(plain("               "@)).push(
            styled(
                Style::Yellow,
                "- "@ + drift[n - 1].field_name@ + ": "@ + drift[n - 1].description@,
            ),
        ).push(plain("\n"@))
    }
}

/// The lines on the configuration of an interface.
pub open spec fn config_lines(info: VarlinkInterfaceInfo) -> Seq<SpanView> {
    match info.config_state {
        None => Seq::empty(),
        Some(state) => {
            let style = if state@ == "applied"@ {
                Style::Green
            } else {
                Style::Red
            };
            let head = Seq::empty().push(plain("    Config:    "@)).push(
                styled(style, state@),
            ).push(plain("\n"@));
            match info.config_drift {
                Some(drift) => head + drift_lines(drift@, drift@.len()),
                None => head,
            }
        },
    }
}

/// The lines on an interface.
pub open spec fn interface_lines(info: VarlinkInterfaceInfo) -> Seq<SpanView> {
    Seq::empty().push(plain("  "@ + info.name@ + "\n"@)) + state_line(info) + addresses_line(info)
        + policies_line(info) + dhcp_lines(info) + config_lines(info)
}

/// The lines on the first `n` interfaces, with an empty line between them.
pub open spec fn interfaces_lines(list: Seq<VarlinkInterfaceInfo>, n: nat) -> Seq<SpanView>
    decreases n,
{
    if n == 0 || n > list.len() {
        Seq::empty()
    } else {
        let lines = interfaces_lines(list, (n - 1) as nat) + interface_lines(list[n - 1]);
        if n < list.len() {
            lines.push(plain("\n"@))
        } else {
            lines
        }
    }
}

/// The overview as it is printed.
pub open spec fn show_layout(info: VarlinkShowInfo) -> Seq<SpanView> {
    daemon_lines(info.daemon).push(plain("\n"@)).push(plain("Interfaces\n"@)) + interfaces_lines(
        info.interfaces@,
        info.interfaces@.len(),
    )
}

/// Appends the state of an interface.
fn push_state(out: &mut Vec<Span>, enabled: bool, carrier: bool)
    ensures
        span_views(final(out)@) == span_views(old(out)@).push(state_span(enabled, carrier)),
{
    if enabled && carrier {
        push_styled(out, Style::Green, "up, carrier".to_owned());
    } else if enabled {
        push_styled(out, Style::Yellow, "up, no-carrier".to_owned());
    } else if carrier {
        push_styled(out, Style::Yellow, "down, carrier".to_owned());
    } else {
        push_styled(out, Style::Red, "down".to_owned());
    }
}

/// The state of an interface, in printed form.
pub fn format_state(enabled: bool, carrier: bool) -> (r: String)
    ensures
        rendering(Seq::empty().push(state_span(enabled, carrier)), r@),
{
    let mut spans = no_spans();
    push_state(&mut spans, enabled, carrier);
    render(&spans)
}

/// The lines on the daemon.
fn daemon_spans(daemon: &VarlinkDaemonInfo) -> (r: Vec<Span>)
    ensures
        span_views(r@) == daemon_lines(*daemon),
{
    let mut out = no_spans();
    push_plain(&mut out, "Daemon\n".to_owned());
    let status = if same(daemon.status.as_str(), "not_running") {
        "not running"
    } else {
        daemon.status.as_str()
    };
    push_plain(&mut out, cat3("  Status:  ", status, "\n"));
    if let Some(secs) = daemon.uptime_seconds {
        let text = format_duration(to_unsigned(secs));
        push_plain(&mut out, cat3("  Uptime:  ", text.as_str(), "\n"));
    }
    out
}

/// The names and types of policies.
fn list_policies(policies: &Vec<VarlinkPolicyInfo>) -> (r: Vec<String>)
    ensures
        views(r@) == policy_texts(policies@),
{
    let mut out: Vec<String> = Vec::new();
    let n: usize = policies.len();
    let mut i: usize = 0;
    assert(views(out@) == policy_texts(policies@).take(0));
    while i < n
        invariant
            i <= n,
            n == policies@.len(),
            views(out@) == policy_texts(policies@).take(i as int),
        decreases n - i,
    {
        let p = &policies[i];
        push_text(&mut out, cat4(p.name.as_str(), " (", p.policy_type.as_str(), ")"));
        assert(policy_texts(policies@).take(i + 1) == policy_texts(policies@).take(i as int).push(
            policy_texts(policies@)[i as int],
        ));
        i = i + 1;
    }
    assert(policy_texts(policies@).take(n as int) == policy_texts(policies@));
    out
}

/// The lines on the DHCP lease of an interface.
fn dhcp_spans(info: &VarlinkInterfaceInfo) -> (r: Vec<Span>)
    ensures
        span_views(r@) == dhcp_lines(*info),
{
    let mut out = no_spans();
    if let Some(dhcp) = &info.dhcp {
        push_plain(&mut out, cat3("    DHCP:      ", dhcp.state.as_str(), "\n"));
        if same(dhcp.state.as_str(), "running") {
            if let Some(total) = dhcp.lease_time_secs {
                let remaining: i64 = match dhcp.lease_remaining_secs {
                    Some(n) => n,
                    None => 0,
                };
                let total_text = decimal_int_text(total);
                let remaining_text = format_duration(to_unsigned(remaining));
                push_plain(
                    &mut out,
                    cat5(
                        "    Lease:     ",
                        total_text.as_str(),
                        "s total, ",
                        remaining_text.as_str(),
                        " remaining\n",
                    ),
                );
            }
        }
    }
    out
}

/// The lines on the configuration of an interface.
fn config_spans(info: &VarlinkInterfaceInfo) -> (r: Vec<Span>)
    ensures
        span_views(r@) == config_lines(*info),
{
    let mut out = no_spans();
    if let Some(state) = &info.config_state {
        push_plain(&mut out, "    Config:    ".to_owned());
        let style = if same(state.as_str(), "applied") {
            Style::Green
        } else {
            Style::Red
        };
        push_styled(&mut out, style, state.clone());
        push_plain(&mut out, "\n".to_owned());
        if let Some(drift) = &info.config_drift {
            let mut lines = no_spans();
            let n: usize = drift.len();
            let mut i: usize = 0;
            while i < n
                invariant
                    i <= n,
                    n == drift@.len(),
                    span_views(lines@) == drift_lines(drift@, i as nat),
                decreases n - i,
            {
                let d = &drift[i];
                push_plain(&mut lines, "               ".to_owned());
                push_styled(
                    &mut lines,
                    Style::Yellow,
                    cat4("- ", d.field_name.as_str(), ": ", d.description.as_str()),
                );
                push_plain(&mut lines, "\n".to_owned());
                i = i + 1;
            }
            push_all(&mut out, lines);
        }
    }
    out
}

/// The lines on an interface.
fn interface_spans(info: &VarlinkInterfaceInfo) -> (r: Vec<Span>)
    ensures
        span_views(r@) == interface_lines(*info),
{
    let mut out = no_spans();
    push_plain(&mut out, cat3("  ", info.name.as_str(), "\n"));
    let mut state = no_spans();
    if let Some(enabled) = info.enabled {
        let carrier = match info.carrier {
            Some(c) => c,
            None => false,
        };
        push_plain(&mut state, "    State:     ".to_owned());
        push_state(&mut state, enabled, carrier);
        push_plain(&mut state, "\n".to_owned());
    }
    push_all(&mut out, state);
    let mut addresses = no_spans();
    if let Some(list) = &info.addresses {
        if list.len() > 0 {
            let text = join(list.as_slice(), ", ");
            push_plain(&mut addresses, cat3("    Addresses: ", text.as_str(), "\n"));
        }
    }
    push_all(&mut out, addresses);
    let mut policies = no_spans();
    if let Some(list) = &info.policies {
        if list.len() > 0 {
            let texts = list_policies(list);
            let text = join(texts.as_slice(), ", ");
            push_plain(&mut policies, cat3("    Policies:  ", text.as_str(), "\n"));
        }
    }
    push_all(&mut out, policies);
    push_all(&mut out, dhcp_spans(info));
    push_all(&mut out, config_spans(info));
    out
}

/// The overview as it is printed.
pub fn show_spans(info: &VarlinkShowInfo) -> (r: Vec<Span>)
    ensures
        span_views(r@) == show_layout(*info),
{
    let mut out = daemon_spans(&info.daemon);
    push_plain(&mut out, "\n".to_owned());
    push_plain(&mut out, "Interfaces\n".to_owned());
    let list = &info.interfaces;
    let mut lines = no_spans();
    let n: usize = list.len();
    let mut i: usize = 0;
    while i < n
        invariant
            i <= n,
            n == list@.len(),
            span_views(lines@) == interfaces_lines(list@, i as nat),
        decreases n - i,
    {
        push_all(&mut lines, interface_spans(&list[i]));
        if i + 1 < n {
            push_plain(&mut lines, "\n".to_owned());
        }
        i = i + 1;
    }
    push_all(&mut out, lines);
    out
}

/// The overview in printed form.
pub fn format_text(info: &VarlinkShowInfo) -> (r: String)
    ensures
        rendering(show_layout(*info), r@),
{
    let spans = show_spans(info);
    render(&spans)
}

// ── JSON ─────────────────────────────────────────────────────────────────────

/// The daemon as JSON.
pub open spec fn daemon_json(daemon: VarlinkDaemonInfo) -> JsonView {
    JsonView::Dict(
        with_opt(
            Map::empty().insert("status"@, JsonView::Str(daemon.status@)),
            "uptime_seconds"@,
            match daemon.uptime_seconds {
                Some(secs) => Some(int_view(secs)),
                None => None,
            },
        ),
    )
}

/// An optional truth value as JSON.
pub open spec fn opt_bool_json(b: Option<bool>) -> Option<JsonView> {
    match b {
        Some(v) => Some(JsonView::Bool(v)),
        None => None,
    }
}

/// An optional integer as JSON.
pub open spec fn opt_int_json(n: Option<i64>) -> Option<JsonView> {
    match n {
        Some(v) => Some(int_view(v)),
        None => None,
    }
}

/// An optional text as JSON.
pub open spec fn opt_str_json(s: Option<String>) -> Option<JsonView> {
    match s {
        Some(v) => Some(JsonView::Str(v@)),
        None => None,
    }
}

/// The addresses of an interface as JSON, where there are any.
pub open spec fn addresses_json(info: VarlinkInterfaceInfo) -> Option<JsonView> {
    match info.addresses {
        Some(list) if list@.len() > 0 => Some(strings_view(list@)),
        _ => None,
    }
}

/// A policy as JSON.
pub open spec fn policy_json(p: VarlinkPolicyInfo) -> JsonView {
    JsonView::Dict(
        Map::empty().insert("name"@, JsonView::Str(p.name@)).insert(
            "type"@,
            JsonView::Str(p.policy_type@),
        ),
    )
}

/// The policies of an interface as JSON, where there are any.
pub open spec fn policies_json(info: VarlinkInterfaceInfo) -> Option<JsonView> {
    match info.policies {
        Some(list) if list@.len() > 0 => Some(
            JsonView::List(list@.map_values(|p: VarlinkPolicyInfo| policy_json(p))),
        ),
        _ => None,
    }
}

/// A DHCP lease as JSON.
pub open spec fn dhcp_json(dhcp: VarlinkDhcpInfo) -> JsonView {
    let state = Map::empty().insert("state"@, JsonView::Str(dhcp.state@));
    let address = with_opt(state, "lease_address"@, opt_str_json(dhcp.lease_address));
    let total = with_opt(address, "lease_time_secs"@, opt_int_json(dhcp.lease_time_secs));
    JsonView::Dict(
        with_opt(total, "lease_remaining_secs"@, opt_int_json(dhcp.lease_remaining_secs)),
    )
}

/// A field that is not as asked for, as JSON.
pub open spec fn drift_json(d: VarlinkDriftEntry) -> JsonView {
    JsonView::Dict(
        Map::empty().insert("field_name"@, JsonView::Str(d.field_name@)).insert(
            "description"@,
            JsonView::Str(d.description@),
        ),
    )
}

/// An interface as JSON.
pub open spec fn interface_json(info: VarlinkInterfaceInfo) -> JsonView {
    let name = Map::empty().insert("name"@, JsonView::Str(info.name@));
    let enabled = with_opt(name, "enabled"@, opt_bool_json(info.enabled));
    let carrier = with_opt(enabled, "carrier"@, opt_bool_json(info.carrier));
    let addresses = with_opt(carrier, "addresses"@, addresses_json(info));
    let policies = with_opt(addresses, "policies"@, policies_json(info));
    let dhcp = with_opt(
        policies,
        "dhcp"@,
        match info.dhcp {
            Some(d) => Some(dhcp_json(d)),
            None => None,
        },
    );
    let state = with_opt(dhcp, "config_state"@, opt_str_json(info.config_state));
    JsonView::Dict(
        with_opt(
            state,
            "config_drift"@,
            match info.config_drift {
                Some(list) => Some(
                    JsonView::List(list@.map_values(|d: VarlinkDriftEntry| drift_json(d))),
                ),
                None => None,
            },
        ),
    )
}

/// The overview as JSON.
pub open spec fn show_json(info: VarlinkShowInfo) -> JsonView {
    JsonView::Dict(
        Map::empty().insert("daemon"@, daemon_json(info.daemon)).insert(
            "interfaces"@,
            JsonView::List(
                info.interfaces@.map_values(|i: VarlinkInterfaceInfo| interface_json(i)),
            ),
        ),
    )
}

/// The daemon as JSON.
fn daemon_to_json(daemon: &VarlinkDaemonInfo) -> (r: Json)
    ensures
        r@ == daemon_json(*daemon),
        r.wf(),
{
    let mut dict = new_dict();
    put_entry(&mut dict, "status", str_json(daemon.status.as_str()));
    if let Some(secs) = daemon.uptime_seconds {
        put_entry(&mut dict, "uptime_seconds", int_json(secs));
    }
    Json::Dict(dict)
}

/// Policies as JSON.
fn policies_to_json(policies: &Vec<VarlinkPolicyInfo>) -> (r: Json)
    ensures
        r@ == JsonView::List(policies@.map_values(|p: VarlinkPolicyInfo| policy_json(p))),
        r.wf(),
{
    let mut list = new_list();
    let ghost model = policies@.map_values(|p: VarlinkPolicyInfo| policy_json(p));
    let n: usize = policies.len();
    let mut i: usize = 0;
    assert(list_of(list) == model.take(0));
    while i < n
        invariant
            i <= n,
            n == policies@.len(),
            model == policies@.map_values(|p: VarlinkPolicyInfo| policy_json(p)),
            list_of(list) == model.take(i as int),
            Json::List(list).wf(),
        decreases n - i,
    {
        let mut dict = new_dict();
        put_entry(&mut dict, "name", str_json(policies[i].name.as_str()));
        put_entry(&mut dict, "type", str_json(policies[i].policy_type.as_str()));
        push_json(&mut list, Json::Dict(dict));
        assert(model.take(i + 1) == model.take(i as int).push(model[i as int]));
        i = i + 1;
    }
    assert(model.take(n as int) == model);
    Json::List(list)
}

/// A DHCP lease as JSON.
fn dhcp_to_json(dhcp: &VarlinkDhcpInfo) -> (r: Json)
    ensures
        r@ == dhcp_json(*dhcp),
        r.wf(),
{
    let mut dict = new_dict();
    put_entry(&mut dict, "state", str_json(dhcp.state.as_str()));
    if let Some(address) = &dhcp.lease_address {
        put_entry(&mut dict, "lease_address", str_json(address.as_str()));
    }
    if let Some(total) = dhcp.lease_time_secs {
        put_entry(&mut dict, "lease_time_secs", int_json(total));
    }
    if let Some(remaining) = dhcp.lease_remaining_secs {
        put_entry(&mut dict, "lease_remaining_secs", int_json(remaining));
    }
    Json::Dict(dict)
}

/// The fields that are not as asked for, as JSON.
fn drift_to_json(drift: &Vec<VarlinkDriftEntry>) -> (r: Json)
    ensures
        r@ == JsonView::List(drift@.map_values(|d: VarlinkDriftEntry| drift_json(d))),
        r.wf(),
{
    let mut list = new_list();
    let ghost model = drift@.map_values(|d: VarlinkDriftEntry| drift_json(d));
    let n: usize = drift.len();
    let mut i: usize = 0;
    assert(list_of(list) == model.take(0));
    while i < n
        invariant
            i <= n,
            n == drift@.len(),
            model == drift@.map_values(|d: VarlinkDriftEntry| drift_json(d)),
            list_of(list) == model.take(i as int),
            Json::List(list).wf(),
        decreases n - i,
    {
        let mut dict = new_dict();
        put_entry(&mut dict, "field_name", str_json(drift[i].field_name.as_str()));
        put_entry(&mut dict, "description", str_json(drift[i].description.as_str()));
        push_json(&mut list, Json::Dict(dict));
        assert(model.take(i + 1) == model.take(i as int).push(model[i as int]));
        i = i + 1;
    }
    assert(model.take(n as int) == model);
    Json::List(list)
}

/// An interface as JSON.
fn interface_to_json(info: &VarlinkInterfaceInfo) -> (r: Json)
    ensures
        r@ == interface_json(*info),
        r.wf(),
{
    let mut dict = new_dict();
    put_entry(&mut dict, "name", str_json(info.name.as_str()));
    if let Some(enabled) = info.enabled {
        put_entry(&mut dict, "enabled", Json::Bool(enabled));
    }
    if let Some(carrier) = info.carrier {
        put_entry(&mut dict, "carrier", Json::Bool(carrier));
    }
    if let Some(list) = &info.addresses {
        if list.len() > 0 {
            put_entry(&mut dict, "addresses", strings_json(list));
        }
    }
    if let Some(list) = &info.policies {
        if list.len() > 0 {
            put_entry(&mut dict, "policies", policies_to_json(list));
        }
    }
    if let Some(dhcp) = &info.dhcp {
        put_entry(&mut dict, "dhcp", dhcp_to_json(dhcp));
    }
    if let Some(state) = &info.config_state {
        put_entry(&mut dict, "config_state", str_json(state.as_str()));
    }
    if let Some(drift) = &info.config_drift {
        put_entry(&mut dict, "config_drift", drift_to_json(drift));
    }
    Json::Dict(dict)
}

/// The overview as JSON.
pub fn show_to_json(info: &VarlinkShowInfo) -> (r: Json)
    ensures
        r@ == show_json(*info),
        r.wf(),
{
    let mut list = new_list();
    let interfaces = &info.interfaces;
    let ghost model = interfaces@.map_values(|i: VarlinkInterfaceInfo| interface_json(i));
    let n: usize = interfaces.len();
    let mut i: usize = 0;
    assert(list_of(list) == model.take(0));
    while i < n
        invariant
            i <= n,
            n == interfaces@.len(),
            model == interfaces@.map_values(|i: VarlinkInterfaceInfo| interface_json(i)),
            list_of(list) == model.take(i as int),
            Json::List(list).wf(),
        decreases n - i,
    {
        push_json(&mut list, interface_to_json(&interfaces[i]));
        assert(model.take(i + 1) == model.take(i as int).push(model[i as int]));
        i = i + 1;
    }
    assert(model.take(n as int) == model);
    let mut dict = new_dict();
    put_entry(&mut dict, "daemon", daemon_to_json(&info.daemon));
    put_entry(&mut dict, "interfaces", Json::List(list));
    Json::Dict(dict)
}

/// The overview as JSON text.
pub fn format_json(info: &VarlinkShowInfo) -> (r: String)
    ensures
        r@ == pretty_written(show_json(*info)),
{
    let json = show_to_json(info);
    json_pretty(&json)
}

/// Without a daemon every entity that has a name is shown, and each name once.
pub proof fn each_name_is_shown_once(entities: Seq<KernelEntity>, n: nat)
    requires
        n <= entities.len(),
    ensures
        names_at(entities, shown_positions(entities, n)).no_duplicates(),
        forall|i: int|
            0 <= i < n && (#[trigger] entities[i]).name is Some ==> names_at(
                entities,
                shown_positions(entities, n),
            ).contains(entities[i].name->0@),
    decreases n,
{
    if n > 0 {
        each_name_is_shown_once(entities, (n - 1) as nat);
        let before = shown_positions(entities, (n - 1) as nat);
        let names = names_at(entities, before);
        if let Some(name) = entities[n - 1].name {
            if !names.contains(name@) {
                let all = names_at(entities, before.push(n - 1));
                assert(all == names.push(name@));
                assert forall|t: Seq<char>| names.contains(t) implies all.contains(t) by {
                    assert(all[names.index_of(t)] == t);
                }
                assert(all[names.len() as int] == name@);
                assert forall|i: int, j: int|
                    0 <= i < all.len() && 0 <= j < all.len() && i != j implies all[i]
                    != all[j] by {
                    if i == names.len() {
                        assert(names.contains(names[j]));
                    } else if j == names.len() {
                        assert(names.contains(names[i]));
                    } else {
                        assert(names[i] != names[j]);
                    }
                }
            }
        }
    }
}

// ── Laws ─────────────────────────────────────────────────────────────────────

/// The lines on some fields that drifted and others behind them are those on
/// the first, then those on the others.
pub proof fn drift_of_parts(
    a: Seq<VarlinkDriftEntry>,
    b: Seq<VarlinkDriftEntry>,
)
    ensures
        drift_lines(a + b, (a + b).len()) == drift_lines(a, a.len()) + drift_lines(b, b.len()),
{
    lemma_drift_of_parts(a, b, b.len());
}

/// The first elements give the same whatever stands behind them.
proof fn lemma_drift_of_parts_start(
    a: Seq<VarlinkDriftEntry>,
    b: Seq<VarlinkDriftEntry>,
    n: nat,
)
    requires
        n <= a.len(),
    ensures
        drift_lines(a + b, n) == drift_lines(a, n),
    decreases n,
{
    if n > 0 {
        lemma_drift_of_parts_start(a, b, (n - 1) as nat);
        assert((a + b)[n - 1] == a[n - 1]);
    }
}

/// The first `m` elements of the second part follow all of the first part.
proof fn lemma_drift_of_parts(
    a: Seq<VarlinkDriftEntry>,
    b: Seq<VarlinkDriftEntry>,
    m: nat,
)
    requires
        m <= b.len(),
    ensures
        drift_lines(a + b, a.len() + m) == drift_lines(a, a.len()) + drift_lines(b, m),
    decreases m,
{
    if m == 0 {
        lemma_drift_of_parts_start(a, b, a.len());
    } else {
        lemma_drift_of_parts(a, b, (m - 1) as nat);
        assert((a + b)[a.len() + m - 1] == b[m - 1]);
    }
}

/// A field that drifted has its line.
pub proof fn drift_of_one(d: VarlinkDriftEntry)
    ensures
        drift_lines(seq![d], 1) == seq![
            plain("               "@),
            styled(Style::Yellow, "- "@ + d.field_name@ + ": "@ + d.description@),
            plain("\n"@),
        ],
{
    assert(drift_lines(seq![d], 0) == Seq::<SpanView>::empty());
}

/// An overview tells of the daemon, then of every interface, with an empty line
/// between two of them.
pub proof fn every_interface_is_shown(info: VarlinkShowInfo, n: nat)
    requires
        0 < n <= info.interfaces@.len(),
    ensures
        ({
            let list = info.interfaces@;
            let before = interfaces_lines(list, (n - 1) as nat);
            &&& n < list.len() ==> interfaces_lines(list, n) == before + interface_lines(
                list[n - 1],
            ) + seq![plain("\n"@)]
            &&& n == list.len() ==> interfaces_lines(list, n) == before + interface_lines(
                list[n - 1],
            )
            &&& interfaces_lines(list, 0).len() == 0
            &&& show_layout(info) == daemon_lines(info.daemon) + seq![
                plain("\n"@),
                plain("Interfaces\n"@),
            ] + interfaces_lines(list, list.len())
        }),
{
    assert(show_layout(info) == daemon_lines(info.daemon) + seq![
        plain("\n"@),
        plain("Interfaces\n"@),
    ] + interfaces_lines(info.interfaces@, info.interfaces@.len()));
}

/// The daemon is told of with its status, and for how long it has been up where that
/// is known.
pub proof fn daemon_is_shown(daemon: VarlinkDaemonInfo)
    ensures
        ({
            let lines = daemon_lines(daemon);
            &&& lines[0] == plain("Daemon\n"@)
            &&& daemon.status@ == "not_running"@ ==> lines[1] == plain(
                "  Status:  "@ + "not running"@ + "\n"@,
            )
            &&& daemon.status@ != "not_running"@ ==> lines[1] == plain(
                "  Status:  "@ + daemon.status@ + "\n"@,
            )
            &&& daemon.uptime_seconds is None ==> lines.len() == 2
            &&& daemon.uptime_seconds matches Some(secs) ==> (secs >= 0 ==> lines.len() == 3
                && lines[2] == plain("  Uptime:  "@ + duration_text(secs as nat) + "\n"@))
        }),
{
}

/// An interface is told of with all that is known of it: its name, its state, its
/// addresses, its policies, its lease, and its configuration with every field that
/// drifted.
pub proof fn interface_of_one(info: VarlinkInterfaceInfo)
    ensures
        interface_lines(info) == seq![plain("  "@ + info.name@ + "\n"@)] + state_line(info)
            + addresses_line(info) + policies_line(info) + dhcp_lines(info) + config_lines(info),
        info.enabled is None ==> state_line(info).len() == 0,
        info.enabled matches Some(enabled) ==> {
            let carrier = info.carrier == Some(true);
            let line = state_line(info);
            &&& line.len() == 3
            &&& line[0] == plain("    State:     "@)
            &&& line[2] == plain("\n"@)
            &&& enabled && carrier ==> line[1] == styled(Style::Green, "up, carrier"@)
            &&& enabled && !carrier ==> line[1] == styled(Style::Yellow, "up, no-carrier"@)
            &&& !enabled && carrier ==> line[1] == styled(Style::Yellow, "down, carrier"@)
            &&& !enabled && !carrier ==> line[1] == styled(Style::Red, "down"@)
        },
        info.addresses matches Some(list) ==> (list@.len() > 0 ==> addresses_line(info) == seq![
            plain("    Addresses: "@ + joined(views(list@), ", "@) + "\n"@),
        ]),
        info.addresses is None || info.addresses->0@.len() == 0 ==> addresses_line(info).len() == 0,
        info.policies matches Some(list) ==> (list@.len() > 0 ==> policies_line(info) == seq![
            plain("    Policies:  "@ + joined(policy_texts(list@), ", "@) + "\n"@),
        ]),
        info.policies is None || info.policies->0@.len() == 0 ==> policies_line(info).len() == 0,
        info.config_state is None ==> config_lines(info).len() == 0,
        info.config_state matches Some(state) ==> {
            let lines = config_lines(info);
            &&& lines[0] == plain("    Config:    "@)
            &&& state@ == "applied"@ ==> lines[1] == styled(Style::Green, state@)
            &&& state@ != "applied"@ ==> lines[1] == styled(Style::Red, state@)
            &&& lines[2] == plain("\n"@)
            &&& info.config_drift is None ==> lines.len() == 3
            &&& info.config_drift matches Some(drift) ==> lines.skip(3) == drift_lines(
                drift@,
                drift@.len(),
            )
        },
{
    if let Some(drift) = info.config_drift {
        if info.config_state is Some {
            assert(config_lines(info).skip(3) == drift_lines(drift@, drift@.len()));
        }
    }
}

/// The policies of an interface are told each with its name and its type.
pub proof fn policies_are_shown(policies: Seq<VarlinkPolicyInfo>, i: int)
    requires
        0 <= i < policies.len(),
    ensures
        policy_texts(policies).len() == policies.len(),
        policy_texts(policies)[i] == policies[i].name@ + " ("@ + policies[i].policy_type@ + ")"@,
{
}

/// A lease is told with its state; where it runs and its length is known, with its
/// length and what is left of it.
pub proof fn leases_are_shown(info: VarlinkInterfaceInfo)
    ensures
        info.dhcp is None ==> dhcp_lines(info).len() == 0,
        info.dhcp matches Some(dhcp) ==> {
            let lines = dhcp_lines(info);
            &&& lines[0] == plain("    DHCP:      "@ + dhcp.state@ + "\n"@)
            &&& dhcp.state@ != "running"@ || dhcp.lease_time_secs is None ==> lines.len() == 1
            &&& dhcp.state@ == "running"@ && dhcp.lease_time_secs is Some
                && dhcp.lease_remaining_secs is Some && dhcp.lease_remaining_secs->0 >= 0
                ==> lines.len() == 2 && lines[1] == plain(
                "    Lease:     "@ + decimal_int(dhcp.lease_time_secs->0 as int) + "s total, "@
                    + duration_text(dhcp.lease_remaining_secs->0 as nat) + " remaining\n"@,
            )
        },
{
}

/// A duration is told in its two largest units, the smaller one only where it is not
/// zero.
pub proof fn durations_are_told(days: nat, hours: nat, minutes: nat, seconds: nat)
    requires
        hours < 24,
        minutes < 60,
        seconds < 60,
    ensures
        ({
            let text = duration_text(days * 86400 + hours * 3600 + minutes * 60 + seconds);
            &&& days > 0 && hours > 0 ==> text == decimal(days) + "d"@ + " "@ + decimal(hours)
                + "h"@
            &&& days > 0 && hours == 0 ==> text == decimal(days) + "d"@
            &&& days == 0 && hours > 0 && minutes > 0 ==> text == decimal(hours) + "h"@ + " "@
                + decimal(minutes) + "m"@
            &&& days == 0 && hours > 0 && minutes == 0 ==> text == decimal(hours) + "h"@
            &&& days == 0 && hours == 0 && minutes > 0 && seconds > 0 ==> text == decimal(minutes)
                + "m"@ + " "@ + decimal(seconds) + "s"@
            &&& days == 0 && hours == 0 && minutes > 0 && seconds == 0 ==> text == decimal(minutes)
                + "m"@
            &&& days == 0 && hours == 0 && minutes == 0 ==> text == decimal(seconds) + "s"@
        }),
{
}

/// An interface that shows an entity shows its name, its state and its addresses, and
/// nothing else.
pub proof fn entities_are_shown_as_they_are(info: VarlinkInterfaceInfo, entity: KernelEntity)
    requires
        shows_entity(info, entity),
    ensures
        entity.name matches Some(name) && info.name@ == name@,
        info.enabled == entity.enabled,
        info.carrier == entity.carrier,
        entity.addresses matches Some(list) ==> (list@.len() > 0 ==> (
        info.addresses matches Some(shown) && views(shown@) == views(list@))),
        entity.addresses is None || entity.addresses->0@.len() == 0 ==> info.addresses is None,
        info.policies is None,
        info.dhcp is None,
        info.config_state is None,
        info.config_drift is None,
{
    if let Some(list) = entity.addresses {
        assert(views(list@).len() == list@.len());
    }
}

/// Without a daemon the first entity of each name is shown, wherever it stands.
pub proof fn first_of_each_name_is_shown(entities: Seq<KernelEntity>, i: int, n: nat)
    requires
        0 <= i < n <= entities.len(),
        entities[i].name is Some,
        forall|k: int|
            0 <= k < i ==> ((#[trigger] entities[k]).name is None || entities[k].name->0@
                != entities[i].name->0@),
    ensures
        shown_positions(entities, n).contains(i),
    decreases n,
{
    let before = shown_positions(entities, (n - 1) as nat);
    let all = shown_positions(entities, n);
    if i < n - 1 {
        first_of_each_name_is_shown(entities, i, (n - 1) as nat);
        assert(all[before.index_of(i)] == i);
    } else {
        lemma_positions(entities, (n - 1) as nat);
        let name = entities[i].name->0@;
        if names_at(entities, before).contains(name) {
            let k = names_at(entities, before).index_of(name);
            assert(entities[before[k]].name->0@ == name);
        }
        assert(all[before.len() as int] == i);
    }
}

/// The positions that are shown are positions of entities with a name.
proof fn lemma_positions(entities: Seq<KernelEntity>, n: nat)
    requires
        n <= entities.len(),
    ensures
        forall|k: int|
            0 <= k < shown_positions(entities, n).len() ==> 0 <= #[trigger] shown_positions(
                entities,
                n,
            )[k] < n && entities[shown_positions(entities, n)[k]].name is Some,
    decreases n,
{
    if n > 0 {
        lemma_positions(entities, (n - 1) as nat);
    }
}

/// The overview as JSON holds the daemon and every interface, in their order.
pub proof fn json_holds_every_interface(info: VarlinkShowInfo)
    ensures
        show_json(info) matches JsonView::Dict(dict) && {
            &&& dict.contains_key("daemon"@)
            &&& dict["daemon"@] == daemon_json(info.daemon)
            &&& dict.contains_key("interfaces"@)
            &&& dict["interfaces"@] matches JsonView::List(list) && list.len()
                == info.interfaces@.len() && forall|i: int|
                0 <= i < list.len() ==> #[trigger] list[i] == interface_json(info.interfaces@[i])
        },
{
    reveal_strlit("daemon");
    reveal_strlit("interfaces");
    assert("daemon"@[0] == 'd' && "interfaces"@[0] == 'i');
}

/// An interface as JSON holds its name, and each of the other things exactly where it
/// is known.
pub proof fn json_holds_what_is_known(info: VarlinkInterfaceInfo)
    ensures
        interface_json(info) matches JsonView::Dict(dict) && {
            &&& dict.contains_key("name"@) && dict["name"@] == JsonView::Str(info.name@)
            &&& dict.contains_key("enabled"@) == (info.enabled is Some)
            &&& info.enabled matches Some(b) ==> dict["enabled"@] == JsonView::Bool(b)
            &&& dict.contains_key("carrier"@) == (info.carrier is Some)
            &&& info.carrier matches Some(b) ==> dict["carrier"@] == JsonView::Bool(b)
            &&& dict.contains_key("addresses"@) == (info.addresses is Some
                && info.addresses->0@.len() > 0)
            &&& dict.contains_key("policies"@) == (info.policies is Some && info.policies->0@.len()
                > 0)
            &&& dict.contains_key("dhcp"@) == (info.dhcp is Some)
            &&& info.dhcp matches Some(d) ==> dict["dhcp"@] == dhcp_json(d)
            &&& dict.contains_key("config_state"@) == (info.config_state is Some)
            &&& info.config_state matches Some(s) ==> dict["config_state"@] == JsonView::Str(s@)
            &&& dict.contains_key("config_drift"@) == (info.config_drift is Some)
        },
{
    reveal_strlit("name");
    reveal_strlit("enabled");
    reveal_strlit("carrier");
    reveal_strlit("addresses");
    reveal_strlit("policies");
    reveal_strlit("dhcp");
    reveal_strlit("config_state");
    reveal_strlit("config_drift");
    assert("name"@[0] == 'n' && "enabled"@[0] == 'e' && "carrier"@[1] == 'a' && "addresses"@[0]
        == 'a' && "policies"@[0] == 'p' && "dhcp"@[0] == 'd');
    assert("carrier"@[0] == 'c' && "config_state"@[0] == 'c' && "config_drift"@[0] == 'c');
    assert("config_state"@[1] == 'o' && "config_drift"@[1] == 'o');
    assert("config_state"@[7] == 's' && "config_drift"@[7] == 'd');
}

/// The lists of an interface as JSON hold every address, every policy with its name
/// and its type, and every field that drifted with its name and how.
pub proof fn json_holds_every_element(info: VarlinkInterfaceInfo)
    ensures
        interface_json(info) matches JsonView::Dict(dict) && {
            &&& info.addresses matches Some(list) ==> (list@.len() > 0 ==> (
            dict["addresses"@] matches JsonView::List(all) && all.len() == list@.len()
                && forall|i: int|
                0 <= i < all.len() ==> #[trigger] all[i] == JsonView::Str(list@[i]@)))
            &&& info.policies matches Some(list) ==> (list@.len() > 0 ==> (
            dict["policies"@] matches JsonView::List(all) && all.len() == list@.len()
                && forall|i: int|
                0 <= i < all.len() ==> (#[trigger] all[i] matches JsonView::Dict(p)
                    && p.contains_key("name"@) && p["name"@] == JsonView::Str(list@[i].name@)
                    && p.contains_key("type"@) && p["type"@] == JsonView::Str(
                    list@[i].policy_type@,
                ))))
            &&& info.config_drift matches Some(list) ==> (
            dict["config_drift"@] matches JsonView::List(all) && all.len() == list@.len()
                && forall|i: int|
                0 <= i < all.len() ==> (#[trigger] all[i] matches JsonView::Dict(d)
                    && d.contains_key("field_name"@) && d["field_name"@] == JsonView::Str(
                    list@[i].field_name@,
                ) && d.contains_key("description"@) && d["description"@] == JsonView::Str(
                    list@[i].description@,
                )))
        },
{
    reveal_strlit("name");
    reveal_strlit("type");
    reveal_strlit("field_name");
    reveal_strlit("description");
    reveal_strlit("addresses");
    reveal_strlit("policies");
    reveal_strlit("dhcp");
    reveal_strlit("config_state");
    reveal_strlit("config_drift");
    assert("name"@[0] == 'n' && "type"@[0] == 't' && "field_name"@[0] == 'f' && "description"@[0]
        == 'd');
    assert("addresses"@[0] == 'a' && "policies"@[0] == 'p' && "dhcp"@[0] == 'd');
    assert("config_state"@[0] == 'c' && "config_drift"@[0] == 'c');
    assert("config_state"@[7] == 's' && "config_drift"@[7] == 'd');
}

/// A lease as JSON holds its state, and its address, its length and what is left of it
/// exactly where they are known; the daemon holds its status, and for how long it has
/// been up where that is known.
pub proof fn json_holds_the_lease(dhcp: VarlinkDhcpInfo, daemon: VarlinkDaemonInfo)
    ensures
        dhcp_json(dhcp) matches JsonView::Dict(d) && {
            &&& d.contains_key("state"@) && d["state"@] == JsonView::Str(dhcp.state@)
            &&& d.contains_key("lease_address"@) == (dhcp.lease_address is Some)
            &&& dhcp.lease_address matches Some(a) ==> d["lease_address"@] == JsonView::Str(a@)
            &&& d.contains_key("lease_time_secs"@) == (dhcp.lease_time_secs is Some)
            &&& dhcp.lease_time_secs matches Some(n) ==> d["lease_time_secs"@] == int_view(n)
            &&& d.contains_key("lease_remaining_secs"@) == (dhcp.lease_remaining_secs is Some)
            &&& dhcp.lease_remaining_secs matches Some(n) ==> d["lease_remaining_secs"@]
                == int_view(n)
        },
        daemon_json(daemon) matches JsonView::Dict(d) && {
            &&& d.contains_key("status"@) && d["status"@] == JsonView::Str(daemon.status@)
            &&& d.contains_key("uptime_seconds"@) == (daemon.uptime_seconds is Some)
            &&& daemon.uptime_seconds matches Some(n) ==> d["uptime_seconds"@] == int_view(n)
        },
{
    reveal_strlit("state");
    reveal_strlit("status");
    reveal_strlit("uptime_seconds");
    reveal_strlit("lease_address");
    reveal_strlit("lease_time_secs");
    reveal_strlit("lease_remaining_secs");
    assert("state"@[0] == 's' && "status"@[0] == 's' && "uptime_seconds"@[0] == 'u');
    assert("lease_address"@[0] == 'l' && "lease_time_secs"@[0] == 'l' && "lease_remaining_secs"@[0]
        == 'l');
    assert("lease_address"@[6] == 'a' && "lease_time_secs"@[6] == 't' && "lease_remaining_secs"@[6]
        == 'r');
}

/// Interfaces of one name stay in their order when interfaces are sorted: one that is
/// put in stands behind all that do not stand behind it by name.
pub proof fn later_interfaces_stand_behind(
    list: Seq<VarlinkInterfaceInfo>,
    last: VarlinkInterfaceInfo,
)
    ensures
        list.len() > 0 && text_le(by_name(list).last().name@, last.name@) ==> by_name(
            list.push(last),
        ) == by_name(list).push(last),
{
    sorted_by_name(list);
    assert(list.push(last).drop_last() == list);
    if list.len() > 0 && text_le(by_name(list).last().name@, last.name@) {
        let before = by_name(list);
        assert(before.insert(before.len() as int, last) == before.push(last));
    }
}

} // verus!
