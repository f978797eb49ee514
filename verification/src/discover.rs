use vstd::prelude::*;

use crate::models::{
    host_ips_defined, subnet_ips, AddrLookupError, Device, MacAddress, NetworkInterface,
};
use crate::text::{ipv4_text, ipv4_to_string, pad_right, pad_right_to};

verus! {

/// The header line printed above the devices found.
pub fn scan_header() -> (line: String)
    ensures
        line@ == pad_right("IP address"@, 20) + " "@ + pad_right("MAC Address"@, 20) + " Device Type"@,
{
    let mut line = pad_right_to("IP address", 20);
    line.append(" ");
    let mac = pad_right_to("MAC Address", 20);
    line.append(mac.as_str());
    line.append(" Device Type");
    line
}

/// The line printed for a device found: its address and hardware address,
/// each padded to 20 characters, then its type.
pub fn output_found_device(ip: &str, mac: &MacAddress, device_type: &str) -> (line: String)
    ensures
        line@ == pad_right(ip@, 20) + " "@ + pad_right(crate::models::mac_text(mac.addr@), 20) + " "@ + device_type@,
{
    let mut line = pad_right_to(ip, 20);
    line.append(" ");
    let m = mac.fmt(Some(20));
    line.append(m.as_str());
    line.append(" ");
    line.append(device_type);
    line
}

/// What a scan reports of a device: this host itself, or another host
/// that answered a ping.
#[derive(Clone, Copy, Debug, PartialEq, Eq)]
pub enum DeviceKind {
    ThisPc,
    Unknown,
}

/// A device found by a scan: its IPv4 address, hardware address and kind.
#[derive(Clone, Copy, Debug, PartialEq, Eq)]
pub struct Sighting {
    pub ip: u32,
    pub mac: MacAddress,
    pub kind: DeviceKind,
}

/// The text a scan shows for a device kind.
pub open spec fn kind_label(kind: DeviceKind) -> Seq<char> {
    match kind {
        DeviceKind::ThisPc => "This PC"@,
        DeviceKind::Unknown => "unkown"@,
    }
}

impl Sighting {
    /// The device in text form: its address in dotted decimal, its hardware
    /// address, and the label of its kind.
    pub fn to_device(&self) -> (d: Device)
        ensures
            d.ip@ == ipv4_text(self.ip),
            d.mac == self.mac,
            d.device_type@ == kind_label(self.kind),
    {
        let label = match self.kind {
            DeviceKind::ThisPc => String::from_str("This PC"),
            DeviceKind::Unknown => String::from_str("unkown"),
        };
        Device { ip: ipv4_to_string(self.ip), mac: self.mac, device_type: label }
    }
}

/// The stages of a scan.
#[derive(Clone, Copy, Debug, PartialEq, Eq)]
pub enum ScanPhase {
    /// Not started.
    Ready,
    /// Waiting for the local interface.
    AwaitingInterface,
    /// Waiting for the answer to a ping.
    Probing,
    /// Done, or given up.
    Finished,
}

/// What the caller reports to a scan.
#[derive(Debug)]
pub enum ScanEvent {
    /// The scan is to begin.
    Start,
    /// The local interface, or why it could not be determined.
    Interface(Result<NetworkInterface, AddrLookupError>),
    /// The pinged host answered, naming the answering address, or no
    /// answer came.
    PingAnswered(Option<u32>),
    /// The ping could not be carried out.
    PingFailed,
}

/// What a scan asks its caller to do, in order.
#[derive(Debug)]
pub enum ScanAction {
    /// Print the header line.
    ShowHeader,
    /// Determine the local interface and report it.
    LookupInterface,
    /// Ping this address and report the answer.
    Ping(u32),
    /// Show a device found.
    Report(Sighting),
    /// The scan is over.
    Complete,
    /// The scan failed.
    Abort(AddrLookupError),
}

/// The state of a network scan.
pub struct Scanner {
    pub phase: ScanPhase,
    /// Whether the interface to scan is the default one: only then is the
    /// local network probed.
    pub scan_default: bool,
    pub local_ip: u32,
    pub local_mac: MacAddress,
    /// The host addresses of the local subnet, in increasing order.
    pub targets: Vec<u32>,
    /// While probing, the position in `targets` of the address pinged.
    pub next: usize,
}

/// The state of a scan as values.
pub struct ScanModel {
    pub phase: ScanPhase,
    pub scan_default: bool,
    pub local_ip: u32,
    pub local_mac: MacAddress,
    pub targets: Seq<u32>,
    pub next: nat,
}

impl Scanner {
    pub open spec fn model(&self) -> ScanModel {
        ScanModel {
            phase: self.phase,
            scan_default: self.scan_default,
            local_ip: self.local_ip,
            local_mac: self.local_mac,
            targets: self.targets@,
            next: self.next as nat,
        }
    }
}

impl ScanModel {
    /// Consistency of a scan's state: the position lies within the
    /// targets, and while probing it names an address other than this
    /// host's.
    pub open spec fn wf(self) -> bool {
        &&& self.next <= self.targets.len()
        &&& self.phase == ScanPhase::Probing ==> self.next < self.targets.len() && self.targets[self.next as int] != self.local_ip
    }
}

/// The hardware address reported for hosts other than this one: all zero.
pub open spec fn unknown_mac() -> MacAddress {
    MacAddress { addr: [0u8, 0u8, 0u8, 0u8, 0u8, 0u8] }
}

/// The position of the first target from `from` on that is not this
/// host's address, or the number of targets.
pub open spec fn first_other(targets: Seq<u32>, own: u32, from: int) -> int
    decreases targets.len() - from,
{
    if from >= targets.len() || from < 0 {
        from
    } else if targets[from] != own {
        from
    } else {
        first_other(targets, own, from + 1)
    }
}

/// The first other target lies between `from` and the end; the targets
/// before it are this host's address and, unless at the end, it is not.
pub proof fn lemma_first_other(targets: Seq<u32>, own: u32, from: int)
    requires
        0 <= from <= targets.len(),
    ensures
        from <= first_other(targets, own, from) <= targets.len(),
        first_other(targets, own, from) < targets.len() ==> targets[first_other(targets, own, from)] != own,
        forall|i: int| from <= i < first_other(targets, own, from) ==> targets[i] == own,
    decreases targets.len() - from,
{
    if from < targets.len() && targets[from] == own {
        lemma_first_other(targets, own, from + 1);
    }
}

/// Moving on from position `from`: this host's own address, where it comes
/// next, is reported as this PC; then the next other address is pinged, or
/// the scan completes when none is left.
pub open spec fn advance(s: ScanModel, from: nat) -> (ScanModel, Seq<ScanAction>) {
    let j = first_other(s.targets, s.local_ip, from as int);
    let own = Seq::new((j - from) as nat, |i: int| ScanAction::Report(
        Sighting { ip: s.targets[from + i], mac: s.local_mac, kind: DeviceKind::ThisPc },
    ));
    if j < s.targets.len() {
        (ScanModel { phase: ScanPhase::Probing, next: j as nat, ..s }, own.push(ScanAction::Ping(s.targets[j])))
    } else {
        (ScanModel { phase: ScanPhase::Finished, next: s.targets.len(), ..s }, own.push(ScanAction::Complete))
    }
}

/// One step of a scan: the state after an event and the actions it asks
/// for. Events that do not fit the stage change nothing.
pub open spec fn scan_step(s: ScanModel, e: ScanEvent) -> (ScanModel, Seq<ScanAction>) {
    match (s.phase, e) {
        (ScanPhase::Ready, ScanEvent::Start) => if s.scan_default {
            (ScanModel { phase: ScanPhase::AwaitingInterface, ..s }, seq![ScanAction::ShowHeader, ScanAction::LookupInterface])
        } else {
            (ScanModel { phase: ScanPhase::Finished, ..s }, seq![ScanAction::ShowHeader, ScanAction::Complete])
        },
        (ScanPhase::AwaitingInterface, ScanEvent::Interface(Err(err))) =>
            (ScanModel { phase: ScanPhase::Finished, ..s }, seq![ScanAction::Abort(err)]),
        (ScanPhase::AwaitingInterface, ScanEvent::Interface(Ok(ni))) => advance(
            ScanModel { local_ip: ni.ip, local_mac: ni.mac, targets: subnet_ips(ni.subnet), next: 0, ..s },
            0,
        ),
        (ScanPhase::Probing, ScanEvent::PingAnswered(answer)) => {
            let (s2, acts) = advance(s, s.next + 1);
            match answer {
                Some(ip) => (s2, seq![ScanAction::Report(Sighting { ip, mac: unknown_mac(), kind: DeviceKind::Unknown })] + acts),
                None => (s2, acts),
            }
        },
        (ScanPhase::Probing, ScanEvent::PingFailed) => advance(s, s.next + 1),
        _ => (s, Seq::empty()),
    }
}

/// What a scan step may be given: a local interface whose subnet's host
/// addresses can be listed.
pub open spec fn event_accepted(e: ScanEvent) -> bool {
    e matches ScanEvent::Interface(Ok(ni)) ==> host_ips_defined(ni.subnet)
}

impl Scanner {
    /// A scan of `interface`, not yet started; only the interface called
    /// "default" is probed.
    pub fn new(interface: String) -> (s: Scanner)
        ensures
            s.model().phase == ScanPhase::Ready,
            s.model().scan_default == (interface@ == "default"@),
            s.model().next == 0,
            s.model().targets == Seq::<u32>::empty(),
            s.model().local_ip == 0,
            s.model().local_mac == unknown_mac(),
            s.model().wf(),
    {
        let default_name = String::from_str("default");
        let scan_default = interface == default_name;
        Scanner {
            phase: ScanPhase::Ready,
            scan_default,
            local_ip: 0,
            local_mac: MacAddress { addr: [0u8, 0u8, 0u8, 0u8, 0u8, 0u8] },
            targets: Vec::new(),
            next: 0,
        }
    }

    /// Reports this host's own address where it comes next from `from` on,
    /// then pings the next other address or completes.
    fn advance_from(&mut self, from: usize, actions: &mut Vec<ScanAction>)
        requires
            from <= old(self).targets@.len(),
        ensures
            final(self).model() == advance(old(self).model(), from as nat).0,
            final(actions)@ == old(actions)@ + advance(old(self).model(), from as nat).1,
            final(self).model().wf(),
    {
        proof {
            lemma_first_other(self.targets@, self.local_ip, from as int);
        }
        let ghost s0 = self.model();
        let ghost a0 = actions@;
        let len = self.targets.len();
        let mut j = from;
        while j < len && self.targets[j] == self.local_ip
            invariant
                self.model() == s0,
                len == s0.targets.len(),
                from <= j <= len,
                first_other(s0.targets, s0.local_ip, from as int) == first_other(s0.targets, s0.local_ip, j as int),
                actions@ == a0 + Seq::new((j - from) as nat, |i: int| ScanAction::Report(
                    Sighting { ip: s0.targets[from + i], mac: s0.local_mac, kind: DeviceKind::ThisPc },
                )),
            decreases len - j,
        {
            actions.push(ScanAction::Report(Sighting { ip: self.targets[j], mac: self.local_mac, kind: DeviceKind::ThisPc }));
            j += 1;
            assert(actions@ =~= a0 + Seq::new((j - from) as nat, |i: int| ScanAction::Report(
                Sighting { ip: s0.targets[from + i], mac: s0.local_mac, kind: DeviceKind::ThisPc },
            )));
        }
        assert(first_other(s0.targets, s0.local_ip, j as int) == j);
        if j < len {
            actions.push(ScanAction::Ping(self.targets[j]));
            self.phase = ScanPhase::Probing;
            self.next = j;
        } else {
            actions.push(ScanAction::Complete);
            self.phase = ScanPhase::Finished;
            self.next = len;
        }
    }
}

/// One step of a network scan: given the event the caller reports, updates
/// the scan and returns the actions the caller is to carry out, in order.
/// A scan of the default interface shows the header, asks for the local
/// interface, then goes through the host addresses of its subnet in order:
/// this host's own address is reported as this PC, every other address is
/// pinged and, when it answers, the answering address is reported. Another
/// interface only gets the header. A failed interface lookup aborts.
pub fn scan_network(scanner: &mut Scanner, event: ScanEvent) -> (actions: Vec<ScanAction>)
    requires
        old(scanner).model().wf(),
        event_accepted(event),
    ensures
        final(scanner).model().wf(),
        (final(scanner).model(), actions@) == scan_step(old(scanner).model(), event),
{
    let mut actions: Vec<ScanAction> = Vec::new();
    let ghost s0 = scanner.model();
    let ghost e0 = event;
    match (scanner.phase, event) {
        (ScanPhase::Ready, ScanEvent::Start) => {
            actions.push(ScanAction::ShowHeader);
            if scanner.scan_default {
                actions.push(ScanAction::LookupInterface);
                scanner.phase = ScanPhase::AwaitingInterface;
            } else {
                actions.push(ScanAction::Complete);
                scanner.phase = ScanPhase::Finished;
            }
            assert(actions@ =~= scan_step(s0, e0).1);
        },
        (ScanPhase::AwaitingInterface, ScanEvent::Interface(Err(err))) => {
            actions.push(ScanAction::Abort(err));
            scanner.phase = ScanPhase::Finished;
            assert(actions@ =~= scan_step(s0, e0).1);
        },
        (ScanPhase::AwaitingInterface, ScanEvent::Interface(Ok(ni))) => {
            scanner.targets = ni.subnet.get_subnet_ips();
            scanner.local_ip = ni.ip;
            scanner.local_mac = ni.mac;
            scanner.next = 0;
            scanner.advance_from(0, &mut actions);
            assert(actions@ =~= scan_step(s0, e0).1);
        },
        (ScanPhase::Probing, ScanEvent::PingAnswered(answer)) => {
            if let Some(ip) = answer {
                actions.push(ScanAction::Report(Sighting { ip, mac: MacAddress { addr: [0u8, 0u8, 0u8, 0u8, 0u8, 0u8] }, kind: DeviceKind::Unknown }));
            }
            assert(scanner.phase == ScanPhase::Probing);
            let len = scanner.targets.len();
            assert(scanner.next < len);
            let from = scanner.next + 1;
            scanner.advance_from(from, &mut actions);
            assert(actions@ =~= scan_step(s0, e0).1);
        },
        (ScanPhase::Probing, ScanEvent::PingFailed) => {
            assert(scanner.phase == ScanPhase::Probing);
            let len = scanner.targets.len();
            assert(scanner.next < len);
            let from = scanner.next + 1;
            scanner.advance_from(from, &mut actions);
            assert(actions@ =~= scan_step(s0, e0).1);
        },
        _ => {
            assert(actions@ =~= scan_step(s0, e0).1);
        },
    }
    actions
}

/// The report of a ping's answer: the answering address as a device of
/// unknown kind with an all-zero hardware address; nothing when no answer
/// came.
pub open spec fn answer_report(answer: Option<u32>) -> Seq<ScanAction> {
    match answer {
        Some(ip) => seq![ScanAction::Report(Sighting { ip, mac: unknown_mac(), kind: DeviceKind::Unknown })],
        None => Seq::empty(),
    }
}

/// The actions of the rest of a probing scan in which every ping of an
/// address `t` is answered with `answer(t)`.
pub open spec fn run_probes(s: ScanModel, answer: spec_fn(u32) -> Option<u32>) -> Seq<ScanAction>
    decreases s.targets.len() - s.next,
{
    if s.phase == ScanPhase::Probing && s.next < s.targets.len() {
        proof {
            lemma_first_other(s.targets, s.local_ip, (s.next + 1) as int);
        }
        let step = scan_step(s, ScanEvent::PingAnswered(answer(s.targets[s.next as int])));
        step.1 + run_probes(step.0, answer)
    } else {
        Seq::empty()
    }
}

/// What probing the host addresses `targets` from position `i` on shows:
/// for each address in order, this host's own address is reported as this
/// PC, and any other address is pinged and its answer, if any, reported;
/// then the scan completes.
pub open spec fn expected_probe(
    targets: Seq<u32>,
    own: u32,
    mac: MacAddress,
    answer: spec_fn(u32) -> Option<u32>,
    i: int,
) -> Seq<ScanAction>
    decreases targets.len() - i,
{
    if i < 0 || i >= targets.len() {
        seq![ScanAction::Complete]
    } else if targets[i] == own {
        seq![ScanAction::Report(Sighting { ip: targets[i], mac, kind: DeviceKind::ThisPc })]
            + expected_probe(targets, own, mac, answer, i + 1)
    } else {
        seq![ScanAction::Ping(targets[i])] + answer_report(answer(targets[i]))
            + expected_probe(targets, own, mac, answer, i + 1)
    }
}

proof fn lemma_advance_transcript(s: ScanModel, from: int, answer: spec_fn(u32) -> Option<u32>)
    requires
        0 <= from <= s.targets.len(),
    ensures
        advance(s, from as nat).1 + run_probes(advance(s, from as nat).0, answer)
            == expected_probe(s.targets, s.local_ip, s.local_mac, answer, from),
    decreases s.targets.len() - from,
{
    let t = s.targets;
    let own = s.local_ip;
    lemma_first_other(t, own, from);
    let j = first_other(t, own, from);
    let (s1, acts) = advance(s, from as nat);
    if from == t.len() {
        assert(acts =~= seq![ScanAction::Complete]);
        assert(run_probes(s1, answer) =~= Seq::<ScanAction>::empty());
        assert(acts + run_probes(s1, answer) =~= seq![ScanAction::Complete]);
    } else if t[from] == own {
        lemma_advance_transcript(s, from + 1, answer);
        assert(first_other(t, own, from + 1) == j);
        let (s2, acts2) = advance(s, (from + 1) as nat);
        assert(s1 == s2);
        let r = ScanAction::Report(Sighting { ip: t[from], mac: s.local_mac, kind: DeviceKind::ThisPc });
        assert(acts =~= seq![r] + acts2);
        assert(acts + run_probes(s1, answer) =~= seq![r] + (acts2 + run_probes(s2, answer)));
    } else {
        assert(j == from);
        assert(acts =~= seq![ScanAction::Ping(t[from])]);
        lemma_advance_transcript(s1, from + 1, answer);
        let a = answer(t[from]);
        let step = scan_step(s1, ScanEvent::PingAnswered(a));
        let (s3, acts3) = advance(s1, (from + 1) as nat);
        assert(step.0 == s3);
        assert(step.1 =~= answer_report(a) + acts3);
        assert(run_probes(s1, answer) == step.1 + run_probes(step.0, answer));
        assert(acts + run_probes(s1, answer) =~= seq![ScanAction::Ping(t[from])] + answer_report(a)
            + (acts3 + run_probes(s3, answer)));
    }
}

/// Once the local interface is known, a scan in which every ping of an
/// address `t` is answered with `answer(t)` carries out exactly the
/// actions of `expected_probe` over the host addresses of the interface's
/// subnet: each address in order, this host reported as this PC, every
/// other address pinged once and its answer reported, then completion.
pub proof fn lemma_scan_transcript(s: ScanModel, ni: NetworkInterface, answer: spec_fn(u32) -> Option<u32>)
    requires
        s.phase == ScanPhase::AwaitingInterface,
    ensures
        ({
            let step = scan_step(s, ScanEvent::Interface(Ok(ni)));
            step.1 + run_probes(step.0, answer) == expected_probe(subnet_ips(ni.subnet), ni.ip, ni.mac, answer, 0)
        }),
{
    let s0 = ScanModel { local_ip: ni.ip, local_mac: ni.mac, targets: subnet_ips(ni.subnet), next: 0, ..s };
    lemma_advance_transcript(s0, 0, answer);
}

/// A ping that could not be carried out counts as one that got no
/// answer: the scan moves on exactly as it does after an unanswered ping,
/// so this host's own address is still reported and every later address
/// still pinged.
pub proof fn lemma_failed_ping_is_unanswered(s: ScanModel)
    requires
        s.wf(),
        s.phase == ScanPhase::Probing,
    ensures
        scan_step(s, ScanEvent::PingFailed) == scan_step(s, ScanEvent::PingAnswered(None)),
{
}

/// The actions of the rest of a probing scan in which every ping fails.
pub open spec fn run_failing(s: ScanModel) -> Seq<ScanAction>
    decreases s.targets.len() - s.next,
{
    if s.phase == ScanPhase::Probing && s.next < s.targets.len() {
        proof {
            lemma_first_other(s.targets, s.local_ip, (s.next + 1) as int);
        }
        let step = scan_step(s, ScanEvent::PingFailed);
        step.1 + run_failing(step.0)
    } else {
        Seq::empty()
    }
}

proof fn lemma_run_failing_is_silent(s: ScanModel)
    ensures
        run_failing(s) == run_probes(s, |t: u32| None::<u32>),
    decreases s.targets.len() - s.next,
{
    if s.phase == ScanPhase::Probing && s.next < s.targets.len() {
        lemma_first_other(s.targets, s.local_ip, (s.next + 1) as int);
        let silent = |t: u32| None::<u32>;
        assert(silent(s.targets[s.next as int]) == None::<u32>);
        let step = scan_step(s, ScanEvent::PingFailed);
        assert(step == scan_step(s, ScanEvent::PingAnswered(None)));
        lemma_run_failing_is_silent(step.0);
    }
}

/// Once the local interface is known, a scan in which every ping fails
/// goes through every host address of the subnet in order: this host's
/// own address is reported as this PC, every other address is pinged once
/// and nothing else is reported, then the scan completes.
pub proof fn lemma_failing_scan_transcript(s: ScanModel, ni: NetworkInterface)
    requires
        s.phase == ScanPhase::AwaitingInterface,
    ensures
        ({
            let step = scan_step(s, ScanEvent::Interface(Ok(ni)));
            step.1 + run_failing(step.0) == expected_probe(subnet_ips(ni.subnet), ni.ip, ni.mac, |t: u32| None::<u32>, 0)
        }),
{
    let step = scan_step(s, ScanEvent::Interface(Ok(ni)));
    lemma_run_failing_is_silent(step.0);
    lemma_scan_transcript(s, ni, |t: u32| None::<u32>);
}

/// Every failed interface lookup, whatever its stage, ends the scan with
/// that error and nothing else.
pub proof fn lemma_failed_lookup_aborts(s: ScanModel, err: AddrLookupError)
    requires
        s.phase == ScanPhase::AwaitingInterface,
    ensures
        scan_step(s, ScanEvent::Interface(Err(err))).1 == seq![ScanAction::Abort(err)],
        scan_step(s, ScanEvent::Interface(Err(err))).0.phase == ScanPhase::Finished,
{
}

} // verus!
