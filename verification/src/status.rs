//! The system dashboard's decisions that are made on whole numbers and text:
//! how health and time are worded, which network interface is shown, and how
//! much fits on the screen.

use vstd::prelude::*;
use vstd::string::{StringExecFns, StringSliceAdditionalSpecFns};
use vstd::utf8::{encode_utf8, is_char_boundary};
use crate::text::{
    contains_text, decimal, decimal_string, lower_case, lowercase, occurs_at, occurs_in, push_char,
    starts_with,
};

verus! {

/// How well the system is, in four bands.
#[derive(Clone, Copy, Debug, PartialEq, Eq, Structural)]
pub enum HealthBand {
    /// A score of 80 to 100.
    Good,
    /// A score of 60 to 79.
    Fair,
    /// A score of 40 to 59.
    Weak,
    /// Any other score.
    Poor,
}

/// How the dashboard's headline is coloured.
#[derive(Clone, Copy, Debug, PartialEq, Eq, Structural)]
pub enum Tone {
    Success,
    Warning,
    Error,
}

/// The band a health score falls in.
pub open spec fn band_of(score: u8) -> HealthBand {
    if 80 <= score <= 100 {
        HealthBand::Good
    } else if 60 <= score <= 79 {
        HealthBand::Fair
    } else if 40 <= score <= 59 {
        HealthBand::Weak
    } else {
        HealthBand::Poor
    }
}

/// Computes [`band_of`].
pub fn health_band(score: u8) -> (band: HealthBand)
    ensures
        band == band_of(score),
{
    if 80 <= score && score <= 100 {
        HealthBand::Good
    } else if 60 <= score && score <= 79 {
        HealthBand::Fair
    } else if 40 <= score && score <= 59 {
        HealthBand::Weak
    } else {
        HealthBand::Poor
    }
}

impl HealthBand {
    /// The mark shown beside the score.
    pub fn symbol(&self) -> (mark: &'static str)
        ensures
            mark@ == match self {
                HealthBand::Good => "●"@,
                HealthBand::Fair => "○"@,
                HealthBand::Weak => "◐"@,
                HealthBand::Poor => "◯"@,
            },
    {
        match self {
            HealthBand::Good => "●",
            HealthBand::Fair => "○",
            HealthBand::Weak => "◐",
            HealthBand::Poor => "◯",
        }
    }

    /// The headline's colouring: below fair, it is that of an error.
    pub fn tone(&self) -> (tone: Tone)
        ensures
            tone == match self {
                HealthBand::Good => Tone::Success,
                HealthBand::Fair => Tone::Warning,
                HealthBand::Weak => Tone::Error,
                HealthBand::Poor => Tone::Error,
            },
    {
        match self {
            HealthBand::Good => Tone::Success,
            HealthBand::Fair => Tone::Warning,
            HealthBand::Weak => Tone::Error,
            HealthBand::Poor => Tone::Error,
        }
    }
}

/// Whether figures gathered `elapsed_ms` milliseconds ago still count as live.
pub fn live_indicator(elapsed_ms: u128) -> (label: &'static str)
    ensures
        label@ == if elapsed_ms < 3000 {
            "● Live"@
        } else {
            "○ Updated"@
        },
{
    if elapsed_ms < 3000 {
        "● Live"
    } else {
        "○ Updated"
    }
}

/// A time span in hours and minutes: `{h}h {m}m`, or `{m}m` below an hour.
pub open spec fn time_text(seconds: nat) -> Seq<char> {
    let hours = seconds / 3600;
    let minutes = (seconds % 3600) / 60;
    if hours > 0 {
        decimal(hours) + seq!['h', ' '] + decimal(minutes) + seq!['m']
    } else {
        decimal(minutes) + seq!['m']
    }
}

/// An uptime in days, hours and minutes: `{d}d {h}h {m}m`, without the days
/// below a day, and without the hours below an hour.
pub open spec fn uptime_text(seconds: nat) -> Seq<char> {
    let days = seconds / 86400;
    if days > 0 {
        decimal(days) + seq!['d', ' '] + decimal((seconds % 86400) / 3600) + seq!['h', ' ']
            + decimal((seconds % 3600) / 60) + seq!['m']
    } else {
        time_text(seconds)
    }
}

/// Computes [`time_text`].
pub fn format_time(seconds: u64) -> (out: String)
    ensures
        out@ == time_text(seconds as nat),
{
    let hours: u64 = seconds / 3600;
    let minutes: u64 = (seconds % 3600) / 60;
    let mut out = String::new();
    if hours > 0 {
        out.append(decimal_string(hours).as_str());
        push_char(&mut out, 'h');
        push_char(&mut out, ' ');
    }
    out.append(decimal_string(minutes).as_str());
    push_char(&mut out, 'm');
    proof {
        assert(out@ =~= time_text(seconds as nat));
    }
    out
}

/// Computes [`uptime_text`].
pub fn format_uptime(seconds: u64) -> (out: String)
    ensures
        out@ == uptime_text(seconds as nat),
{
    let days: u64 = seconds / 86400;
    if days == 0 {
        proof {
            assert((seconds % 86400) == seconds);
        }
        return format_time(seconds);
    }
    let hours: u64 = (seconds % 86400) / 3600;
    let minutes: u64 = (seconds % 3600) / 60;
    let mut out = String::new();
    out.append(decimal_string(days).as_str());
    push_char(&mut out, 'd');
    push_char(&mut out, ' ');
    out.append(decimal_string(hours).as_str());
    push_char(&mut out, 'h');
    push_char(&mut out, ' ');
    out.append(decimal_string(minutes).as_str());
    push_char(&mut out, 'm');
    proof {
        assert(out@ =~= uptime_text(seconds as nat));
    }
    out
}

/// How a network interface connects, as far as its name tells.
#[derive(Clone, Copy, Debug, PartialEq, Eq, Structural)]
pub enum ConnectionKind {
    WiFi,
    Ethernet,
    Virtual,
}

/// The kind that a lower-cased interface name tells of: wireless names are
/// looked for first, wired names second, virtual names last.
pub open spec fn kind_of_name(lower: Seq<char>) -> Option<ConnectionKind> {
    if occurs_in("wifi"@, lower) || occurs_in("wireless"@, lower) || occurs_in("wlan"@, lower)
        || occurs_in("802.11"@, lower) || occurs_in("wi-fi"@, lower) {
        Some(ConnectionKind::WiFi)
    } else if occurs_in("ethernet"@, lower) || occurs_in("lan"@, lower) || occurs_in("eth"@, lower)
        || occurs_in("local area"@, lower) {
        Some(ConnectionKind::Ethernet)
    } else if occurs_in("vethernet"@, lower) || occurs_in("veth"@, lower) {
        Some(ConnectionKind::Virtual)
    } else {
        None
    }
}

/// Computes [`kind_of_name`] for a name that is already in lower case.
pub fn connection_type_of(lower: &str) -> (kind: Option<ConnectionKind>)
    ensures
        kind == kind_of_name(lower@),
{
    if contains_text(lower, "wifi") || contains_text(lower, "wireless") || contains_text(
        lower,
        "wlan",
    ) || contains_text(lower, "802.11") || contains_text(lower, "wi-fi") {
        Some(ConnectionKind::WiFi)
    } else if contains_text(lower, "ethernet") || contains_text(lower, "lan") || contains_text(
        lower,
        "eth",
    ) || contains_text(lower, "local area") {
        Some(ConnectionKind::Ethernet)
    } else if contains_text(lower, "vethernet") || contains_text(lower, "veth") {
        Some(ConnectionKind::Virtual)
    } else {
        None
    }
}

/// Infers how the interface called `name` connects, whatever the case of its
/// letters.
pub fn connection_type(name: &str) -> (kind: Option<ConnectionKind>)
    ensures
        kind == kind_of_name(lower_case(name@)),
{
    let lower = lowercase(name);
    connection_type_of(lower.as_str())
}

/// A name that tells of a virtual interface tells of a wired one first: no
/// interface is ever taken for virtual.
pub proof fn lemma_virtual_is_never_inferred(lower: Seq<char>)
    ensures
        kind_of_name(lower) != Some(ConnectionKind::Virtual),
{
    reveal_strlit("eth");
    reveal_strlit("veth");
    reveal_strlit("vethernet");
    if occurs_in("vethernet"@, lower) {
        let at = choose|at: int| #[trigger] occurs_at("vethernet"@, lower, at);
        let found = lower.subrange(at, at + 9);
        assert forall|k: int| 0 <= k < 3 implies lower[at + 1 + k] == "eth"@[k] by {
            assert(found[k + 1] == "vethernet"@[k + 1]);
        }
        assert(lower.subrange(at + 1, at + 4) =~= "eth"@);
        assert(occurs_at("eth"@, lower, at + 1));
    }
    if occurs_in("veth"@, lower) {
        let at = choose|at: int| #[trigger] occurs_at("veth"@, lower, at);
        let found = lower.subrange(at, at + 4);
        assert forall|k: int| 0 <= k < 3 implies lower[at + 1 + k] == "eth"@[k] by {
            assert(found[k + 1] == "veth"@[k + 1]);
        }
        assert(lower.subrange(at + 1, at + 4) =~= "eth"@);
        assert(occurs_at("eth"@, lower, at + 1));
    }
}

impl ConnectionKind {
    /// The kind's name on the dashboard.
    pub fn label(&self) -> (label: &'static str)
        ensures
            label@ == match self {
                ConnectionKind::WiFi => "WiFi"@,
                ConnectionKind::Ethernet => "Ethernet"@,
                ConnectionKind::Virtual => "Virtual"@,
            },
    {
        match self {
            ConnectionKind::WiFi => "WiFi",
            ConnectionKind::Ethernet => "Ethernet",
            ConnectionKind::Virtual => "Virtual",
        }
    }
}

/// An interface counts as up when it has an address and has carried traffic.
pub fn interface_is_up(addresses: usize, received: u64, transmitted: u64) -> (up: bool)
    ensures
        up == (addresses > 0 && (received > 0 || transmitted > 0)),
{
    addresses > 0 && (received > 0 || transmitted > 0)
}

/// Does one of the addresses begin with `prefix`?
pub open spec fn has_address_with(addresses: Seq<String>, prefix: Seq<char>) -> bool {
    exists|k: int| 0 <= k < addresses.len() && prefix.is_prefix_of(#[trigger] addresses[k]@)
}

/// The first address that begins with `prefix`.
pub fn first_address_with(addresses: &Vec<String>, prefix: &str) -> (found: Option<usize>)
    ensures
        match found {
            Some(k) => k < addresses@.len() && prefix@.is_prefix_of(addresses@[k as int]@)
                && forall|h: int| 0 <= h < k ==> !prefix@.is_prefix_of(#[trigger] addresses@[h]@),
            None => !has_address_with(addresses@, prefix@),
        },
{
    let mut k: usize = 0;
    while k < addresses.len()
        invariant
            k <= addresses.len(),
            forall|h: int| 0 <= h < k ==> !prefix@.is_prefix_of(#[trigger] addresses@[h]@),
        decreases addresses.len() - k,
    {
        if starts_with(addresses[k].as_str(), prefix) {
            return Some(k);
        }
        k = k + 1;
    }
    None
}

/// How much an interface with these addresses is preferred for display; less
/// is better. An address in a private `192.` network is best, a link-local
/// `fe80:` address second, any address third.
pub open spec fn display_rank(addresses: Seq<String>) -> nat {
    if has_address_with(addresses, "192."@) {
        0
    } else if has_address_with(addresses, "fe80:"@) {
        1
    } else if addresses.len() > 0 {
        2
    } else {
        3
    }
}

fn rank_of(addresses: &Vec<String>) -> (rank: u8)
    ensures
        rank == display_rank(addresses@),
{
    if first_address_with(addresses, "192.").is_some() {
        0
    } else if first_address_with(addresses, "fe80:").is_some() {
        1
    } else if addresses.len() > 0 {
        2
    } else {
        3
    }
}

/// Picks the interface whose details are shown: the first of those that are
/// preferred most. `interfaces` holds the addresses of each interface.
pub fn primary_interface(interfaces: &Vec<Vec<String>>) -> (picked: Option<usize>)
    ensures
        match picked {
            Some(p) => p < interfaces@.len() && forall|j: int|
                0 <= j < interfaces@.len() ==> {
                    let other = display_rank((#[trigger] interfaces@[j])@);
                    let best = display_rank(interfaces@[p as int]@);
                    other > best || (other == best && j >= p)
                },
            None => interfaces@.len() == 0,
        },
{
    if interfaces.len() == 0 {
        return None;
    }
    let mut picked: usize = 0;
    let mut best: u8 = rank_of(&interfaces[0]);
    let mut at: usize = 1;
    while at < interfaces.len()
        invariant
            1 <= at <= interfaces.len(),
            picked < at,
            best == display_rank(interfaces@[picked as int]@),
            forall|j: int|
                0 <= j < at ==> {
                    let other = display_rank((#[trigger] interfaces@[j])@);
                    other > best || (other == best && j >= picked)
                },
        decreases interfaces.len() - at,
    {
        let rank = rank_of(&interfaces[at]);
        if rank < best {
            picked = at;
            best = rank;
        }
        at = at + 1;
    }
    Some(picked)
}

/// The character that writes a hexadecimal digit in capitals.
pub open spec fn hex_char(d: nat) -> char {
    if d < 10 {
        crate::text::digit_char(d)
    } else if d == 10 {
        'A'
    } else if d == 11 {
        'B'
    } else if d == 12 {
        'C'
    } else if d == 13 {
        'D'
    } else if d == 14 {
        'E'
    } else {
        'F'
    }
}

/// A hardware address in text: each byte as two hexadecimal digits in
/// capitals, with colons between the bytes.
pub open spec fn mac_text(bytes: Seq<u8>) -> Seq<char>
    decreases bytes.len(),
{
    if bytes.len() == 0 {
        Seq::empty()
    } else {
        let pair = seq![hex_char(bytes.last() as nat / 16), hex_char(bytes.last() as nat % 16)];
        if bytes.len() == 1 {
            pair
        } else {
            mac_text(bytes.drop_last()) + seq![':'] + pair
        }
    }
}

fn hex_digit(d: u8) -> (c: char)
    requires
        d < 16,
    ensures
        c == hex_char(d as nat),
{
    if d == 0 {
        '0'
    } else if d == 1 {
        '1'
    } else if d == 2 {
        '2'
    } else if d == 3 {
        '3'
    } else if d == 4 {
        '4'
    } else if d == 5 {
        '5'
    } else if d == 6 {
        '6'
    } else if d == 7 {
        '7'
    } else if d == 8 {
        '8'
    } else if d == 9 {
        '9'
    } else if d == 10 {
        'A'
    } else if d == 11 {
        'B'
    } else if d == 12 {
        'C'
    } else if d == 13 {
        'D'
    } else if d == 14 {
        'E'
    } else {
        'F'
    }
}

/// Computes [`mac_text`].
pub fn format_mac(bytes: &[u8; 6]) -> (out: String)
    ensures
        out@ == mac_text(bytes@),
{
    let mut out = String::new();
    let mut at: usize = 0;
    while at < 6
        invariant
            at <= 6,
            bytes@.len() == 6,
            out@ == mac_text(bytes@.take(at as int)),
        decreases 6 - at,
    {
        proof {
            assert(bytes@.take(at + 1).drop_last() =~= bytes@.take(at as int));
            assert(bytes@.take(at + 1).last() == bytes@[at as int]);
        }
        if at > 0 {
            push_char(&mut out, ':');
        }
        let byte: u8 = bytes[at];
        push_char(&mut out, hex_digit(byte / 16));
        push_char(&mut out, hex_digit(byte % 16));
        proof {
            assert(out@ =~= mac_text(bytes@.take(at + 1)));
        }
        at = at + 1;
    }
    proof {
        assert(bytes@.take(6) =~= bytes@);
    }
    out
}

/// A hardware address of zeros only is not shown.
pub fn mac_is_shown(mac: &str) -> (shown: bool)
    ensures
        shown == !"00:00:00:00:00:00"@.is_prefix_of(mac@),
{
    !starts_with(mac, "00:00:00:00:00:00")
}

/// How the screen is divided, top to bottom.
#[derive(Clone, Copy, Debug, PartialEq, Eq, Structural)]
pub struct ScreenPlan {
    /// Rows for the header.
    pub header: u16,
    /// The least number of rows for the dashboard itself.
    pub content_min: u16,
    /// Rows for the shortcuts.
    pub shortcuts: u16,
}

/// The least number of rows the dashboard itself takes.
pub const CONTENT_ROWS: u16 = 20;

/// The least number of columns the dashboard takes.
pub const SCREEN_COLUMNS: u16 = 60;

/// Rows for the shortcuts on a screen of this size: two on a small one.
pub open spec fn shortcut_rows(width: u16, height: u16) -> u16 {
    if height < 20 || width < SCREEN_COLUMNS {
        2
    } else {
        3
    }
}

/// The division of a screen of `width` by `height` under a header of
/// `header` rows, or `None` where the screen is too small for the dashboard.
pub open spec fn planned_screen(width: u16, height: u16, header: u16) -> Option<ScreenPlan> {
    let shortcuts = shortcut_rows(width, height);
    if height < header + CONTENT_ROWS + shortcuts || width < SCREEN_COLUMNS {
        None
    } else {
        Some(ScreenPlan { header, content_min: CONTENT_ROWS, shortcuts })
    }
}

/// Computes [`planned_screen`].
pub fn plan_screen(width: u16, height: u16, header: u16) -> (plan: Option<ScreenPlan>)
    ensures
        plan == planned_screen(width, height, header),
{
    let shortcuts: u16 = if height < 20 || width < SCREEN_COLUMNS {
        2
    } else {
        3
    };
    let needed: u32 = header as u32 + CONTENT_ROWS as u32 + shortcuts as u32;
    if (height as u32) < needed || width < SCREEN_COLUMNS {
        None
    } else {
        Some(ScreenPlan { header, content_min: CONTENT_ROWS, shortcuts })
    }
}

/// A screen that takes the dashboard is never a small one: it always has
/// three rows of shortcuts.
pub proof fn lemma_planned_screen_is_roomy(width: u16, height: u16, header: u16)
    requires
        planned_screen(width, height, header) is Some,
    ensures
        planned_screen(width, height, header)->0.shortcuts == 3,
        height >= header + 23,
        width >= 60,
{
}

/// How many processor cores are listed: as many as there are rows and cores,
/// and three at most.
pub fn core_rows(rows: u16, cores: usize) -> (shown: usize)
    ensures
        shown <= rows,
        shown <= cores,
        shown <= 3,
        shown == rows || shown == cores || shown == 3,
{
    let mut shown: usize = rows as usize;
    if cores < shown {
        shown = cores;
    }
    if 3 < shown {
        shown = 3;
    }
    shown
}

/// How many processes one column lists: as many as there are rows, and five
/// at most.
pub fn process_rows(rows: u16) -> (shown: usize)
    ensures
        shown == if rows < 5 {
            rows as usize
        } else {
            5
        },
{
    if rows < 5 {
        rows as usize
    } else {
        5
    }
}

/// What is known of the battery, as far as the layout of its panel goes.
#[derive(Clone, Copy, Debug, PartialEq, Eq, Structural)]
pub struct PowerFacts {
    pub time_to_empty: bool,
    pub time_to_full: bool,
    pub voltage: bool,
    pub energy_rate: bool,
    pub design_capacity: bool,
    pub full_charge_capacity: bool,
}

/// One if `yes`, else nothing.
pub open spec fn one_if(yes: bool) -> nat {
    if yes {
        1
    } else {
        0
    }
}

/// The rows of the battery panel: level, status, health and cycles, then one
/// row for a time estimate and one for each further reading that is known.
pub fn power_rows(facts: &PowerFacts) -> (rows: usize)
    ensures
        rows == 4 + one_if(facts.time_to_empty || facts.time_to_full) + one_if(facts.voltage)
            + one_if(facts.energy_rate) + one_if(facts.design_capacity) + one_if(
            facts.full_charge_capacity,
        ),
{
    let mut rows: usize = 4;
    if facts.time_to_empty || facts.time_to_full {
        rows = rows + 1;
    }
    if facts.voltage {
        rows = rows + 1;
    }
    if facts.energy_rate {
        rows = rows + 1;
    }
    if facts.design_capacity {
        rows = rows + 1;
    }
    if facts.full_charge_capacity {
        rows = rows + 1;
    }
    rows
}

/// What is known of the network, as far as the layout of its panel goes.
#[derive(Clone, Copy, Debug, PartialEq, Eq, Structural)]
pub struct NetworkFacts {
    /// There is an interface to show.
    pub has_interface: bool,
    /// That interface is up or has an address.
    pub connected: bool,
    /// A proxy is set.
    pub proxy: bool,
    /// That interface has a hardware address that is shown.
    pub mac: bool,
    /// That interface has an address in a `192.` network.
    pub ipv4: bool,
    /// That interface has a link-local `fe80:` address.
    pub ipv6: bool,
}

/// The rows of the network panel: download and upload, then one row for each
/// thing known of the interface shown, or one row saying that there is no
/// network.
pub fn network_rows(facts: &NetworkFacts) -> (rows: usize)
    ensures
        rows == 2 + one_if(facts.has_interface && facts.connected) + one_if(facts.proxy) + one_if(
            facts.has_interface && facts.mac,
        ) + one_if(facts.has_interface && facts.ipv4) + one_if(facts.has_interface && facts.ipv6)
            + one_if(!facts.has_interface),
{
    let mut rows: usize = 2;
    if facts.has_interface && facts.connected {
        rows = rows + 1;
    }
    if facts.proxy {
        rows = rows + 1;
    }
    if facts.has_interface && facts.mac {
        rows = rows + 1;
    }
    if facts.has_interface && facts.ipv4 {
        rows = rows + 1;
    }
    if facts.has_interface && facts.ipv6 {
        rows = rows + 1;
    }
    if !facts.has_interface {
        rows = rows + 1;
    }
    rows
}

/// The space taken on a disk: what is not available of its total, and
/// nothing where more is reported available than there is.
pub fn used_space(total: u64, available: u64) -> (used: u64)
    ensures
        used == if available <= total {
            total - available
        } else {
            0
        },
{
    if available <= total {
        total - available
    } else {
        0
    }
}

/// The longest process name, in bytes, that is shown in full.
pub const NAME_BYTES: usize = 14;

/// A process name cut to fit its column: a name of more than fourteen bytes
/// is cut after its thirteenth byte and ends in an ellipsis. `None` where
/// that cut would fall inside a character.
pub fn short_name(name: &str) -> (out: Option<String>)
    ensures
        name.len() <= NAME_BYTES ==> out is Some && out->0@ == name@,
        name.len() > NAME_BYTES ==> (out is Some <==> is_char_boundary(
            name.spec_bytes(),
            NAME_BYTES - 1,
        )),
        name.len() > NAME_BYTES && out is Some ==> exists|head: Seq<char>|
            #[trigger] encode_utf8(head) == name.spec_bytes().subrange(0, NAME_BYTES - 1)
                && out->0@ == head + "…"@,
{
    if name.len() <= NAME_BYTES {
        return Some(name.to_owned());
    }
    if !name.is_char_boundary(NAME_BYTES - 1) {
        return None;
    }
    let (head, _) = name.split_at(NAME_BYTES - 1);
    let out = head.to_owned().concat("…");
    proof {
        assert(encode_utf8(head@) == name.spec_bytes().subrange(0, NAME_BYTES - 1));
    }
    Some(out)
}

} // verus!
