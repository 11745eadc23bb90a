//! Firewall planning: which backend to use, which allocations to redirect to
//! the agent, and the rule scripts that do it. Running the firewall tools is
//! left to the caller.
use vstd::prelude::*;
use crate::agent::config::FirewallPreference;
use crate::agent::model::IpAddress;
use crate::agent::address::{ip_text, ipv4_text, ipv6_text, push_ip, push_radix, radix_text};
use crate::text::{push_str, string_of};

verus! {

/// A socket address: an IP address and a TCP port.
#[derive(Debug, Clone, Copy, PartialEq, Eq, Structural)]
pub struct Allocation {
    pub ip: IpAddress,
    pub port: u16,
}

/// The order of socket addresses: IPv4 before IPv6, then by address, then by
/// port.
pub open spec fn allocation_key(a: Allocation) -> (int, int, int) {
    match a.ip {
        IpAddress::V4(v) => (0, v as int, a.port as int),
        IpAddress::V6(v) => (1, v as int, a.port as int),
    }
}

/// `a` comes strictly before `b`.
pub open spec fn allocation_lt(a: Allocation, b: Allocation) -> bool {
    let ka = allocation_key(a);
    let kb = allocation_key(b);
    ||| ka.0 < kb.0
    ||| ka.0 == kb.0 && ka.1 < kb.1
    ||| ka.0 == kb.0 && ka.1 == kb.1 && ka.2 < kb.2
}

proof fn lemma_key_injective(a: Allocation, b: Allocation)
    ensures
        allocation_key(a) == allocation_key(b) ==> a == b,
{
}

proof fn lemma_order(a: Allocation, b: Allocation, c: Allocation)
    ensures
        !allocation_lt(a, a),
        allocation_lt(a, b) ==> !allocation_lt(b, a),
        allocation_lt(a, b) && allocation_lt(b, c) ==> allocation_lt(a, c),
        a != b ==> allocation_lt(a, b) || allocation_lt(b, a),
{
    lemma_key_injective(a, b);
}

/// Law: a set of allocations has a single ordered layout; two sorted
/// sequences with the same members are the same sequence.
pub proof fn sorted_layout_unique(s1: Seq<Allocation>, s2: Seq<Allocation>)
    requires
        strictly_sorted(s1),
        strictly_sorted(s2),
        s1.to_set() == s2.to_set(),
    ensures
        s1 == s2,
    decreases s1.len(),
{
    if s1.len() == 0 {
        if s2.len() > 0 {
            assert(s2.to_set().contains(s2[0]));
            assert(s1.to_set().contains(s2[0]));
            assert(false);
        }
        assert(s1 =~= s2);
        return;
    }
    assert(s1.to_set().contains(s1[0]));
    assert(s2.to_set().contains(s1[0]));
    let k = choose|k: int| 0 <= k < s2.len() && s2[k] == s1[0];
    assert(s2.to_set().contains(s2[0]));
    assert(s1.to_set().contains(s2[0]));
    let m = choose|m: int| 0 <= m < s1.len() && s1[m] == s2[0];
    let a = s1[0];
    let b = s2[0];
    lemma_order(a, b, a);
    if k > 0 {
        assert(allocation_lt(b, a));
    }
    if m > 0 {
        assert(allocation_lt(a, b));
    }
    assert(a == b);
    let t1 = s1.drop_first();
    let t2 = s2.drop_first();
    assert forall|x: Allocation| t1.to_set().contains(x) <==> t2.to_set().contains(x) by {
        if t1.to_set().contains(x) {
            let i = choose|i: int| 0 <= i < t1.len() && t1[i] == x;
            assert(s1[i + 1] == x);
            assert(allocation_lt(a, x));
            lemma_order(x, a, x);
            assert(s1.to_set().contains(x));
            assert(s2.to_set().contains(x));
            let j = choose|j: int| 0 <= j < s2.len() && s2[j] == x;
            assert(j != 0);
            assert(t2[j - 1] == x);
        }
        if t2.to_set().contains(x) {
            let i = choose|i: int| 0 <= i < t2.len() && t2[i] == x;
            assert(s2[i + 1] == x);
            assert(allocation_lt(b, x));
            lemma_order(x, b, x);
            assert(s2.to_set().contains(x));
            assert(s1.to_set().contains(x));
            let j = choose|j: int| 0 <= j < s1.len() && s1[j] == x;
            assert(j != 0);
            assert(t1[j - 1] == x);
        }
    }
    assert(t1.to_set() =~= t2.to_set());
    assert(strictly_sorted(t1)) by {
        assert forall|i: int, j: int| 0 <= i < j < t1.len() implies allocation_lt(
            #[trigger] t1[i],
            #[trigger] t1[j],
        ) by {
            assert(allocation_lt(s1[i + 1], s1[j + 1]));
        }
    }
    assert(strictly_sorted(t2)) by {
        assert forall|i: int, j: int| 0 <= i < j < t2.len() implies allocation_lt(
            #[trigger] t2[i],
            #[trigger] t2[j],
        ) by {
            assert(allocation_lt(s2[i + 1], s2[j + 1]));
        }
    }
    sorted_layout_unique(t1, t2);
    assert(s1 =~= seq![a] + t1);
    assert(s2 =~= seq![b] + t2);
}

/// Whether `a` comes strictly before `b`.
pub fn allocation_less(a: Allocation, b: Allocation) -> (r: bool)
    ensures
        r == allocation_lt(a, b),
{
    match (a.ip, b.ip) {
        (IpAddress::V4(_), IpAddress::V6(_)) => true,
        (IpAddress::V6(_), IpAddress::V4(_)) => false,
        (IpAddress::V4(x), IpAddress::V4(y)) => x < y || (x == y && a.port < b.port),
        (IpAddress::V6(x), IpAddress::V6(y)) => x < y || (x == y && a.port < b.port),
    }
}

/// Items in strictly increasing order (so without repeats).
pub open spec fn strictly_sorted(s: Seq<Allocation>) -> bool {
    forall|i: int, j: int| 0 <= i < j < s.len() ==> allocation_lt(#[trigger] s[i], #[trigger] s[j])
}

/// A set of allocations, kept in address order.
#[derive(Debug)]
pub struct AllocationSet {
    items: Vec<Allocation>,
}

impl View for AllocationSet {
    type V = Seq<Allocation>;

    closed spec fn view(&self) -> Seq<Allocation> {
        self.items@
    }
}

impl Clone for AllocationSet {
    fn clone(&self) -> (r: Self)
        ensures
            r@ == self@,
    {
        proof {
            use_type_invariant(self);
        }
        let mut items: Vec<Allocation> = Vec::new();
        let mut i: usize = 0;
        while i < self.items.len()
            invariant
                i <= self.items@.len(),
                items@ == self.items@.take(i as int),
            decreases self.items@.len() - i,
        {
            items.push(self.items[i]);
            i = i + 1;
            assert(items@ =~= self.items@.take(i as int));
        }
        assert(items@ =~= self.items@);
        AllocationSet { items }
    }
}

impl AllocationSet {
    /// The items are in strictly increasing address order.
    #[verifier::type_invariant]
    closed spec fn sorted(self) -> bool {
        strictly_sorted(self.items@)
    }

    /// The empty set.
    pub fn new() -> (r: Self)
        ensures
            r@ == Seq::<Allocation>::empty(),
    {
        AllocationSet { items: Vec::new() }
    }

    /// Number of allocations.
    pub fn len(&self) -> (r: usize)
        ensures
            r == self@.len(),
            strictly_sorted(self@),
    {
        proof {
            use_type_invariant(self);
        }
        self.items.len()
    }

    /// The allocation at position `i` in address order.
    pub fn get(&self, i: usize) -> (r: Allocation)
        requires
            i < self@.len(),
        ensures
            r == self@[i as int],
    {
        self.items[i]
    }

    /// Whether the set holds `a`.
    pub fn contains(&self, a: Allocation) -> (r: bool)
        ensures
            r == self@.contains(a),
    {
        let mut i: usize = 0;
        while i < self.items.len()
            invariant
                i <= self.items@.len(),
                forall|j: int| 0 <= j < i ==> self.items@[j] != a,
            decreases self.items@.len() - i,
        {
            if self.items[i] == a {
                return true;
            }
            i = i + 1;
        }
        false
    }

    /// Adds `a`, keeping the address order; nothing changes when `a` is
    /// already present.
    pub fn insert(&mut self, a: Allocation)
        ensures
            final(self)@.to_set() == old(self)@.to_set().insert(a),
            old(self)@.contains(a) ==> final(self)@ == old(self)@,
    {
        proof {
            use_type_invariant(&*self);
        }
        let mut i: usize = 0;
        while i < self.items.len() && allocation_less(self.items[i], a)
            invariant
                i <= self.items@.len(),
                strictly_sorted(self.items@),
                forall|j: int| 0 <= j < i ==> allocation_lt(self.items@[j], a),
            decreases self.items@.len() - i,
        {
            i = i + 1;
        }
        if i < self.items.len() && self.items[i] == a {
            assert(self@.contains(a));
            assert(self@.to_set().insert(a) =~= self@.to_set());
            return;
        }
        proof {
            assert forall|j: int| i <= j < self.items@.len() implies allocation_lt(
                a,
                self.items@[j],
            ) by {
                lemma_key_injective(self.items@[i as int], a);
                if j > i {
                    assert(allocation_lt(self.items@[i as int], self.items@[j]));
                }
            }
            if old(self)@.contains(a) {
                let k = choose|k: int| 0 <= k < old(self)@.len() && old(self)@[k] == a;
                if k < i {
                    assert(allocation_lt(a, a));
                } else {
                    assert(allocation_lt(a, old(self)@[k]));
                }
            }
        }
        let ghost before = self.items@;
        let mut items = Vec::new();
        std::mem::swap(&mut items, &mut self.items);
        items.insert(i, a);
        proof {
            assert(items@ =~= before.insert(i as int, a));
            assert forall|x: int, y: int| 0 <= x < y < items@.len() implies allocation_lt(
                #[trigger] items@[x],
                #[trigger] items@[y],
            ) by {
                if y < i {
                } else if y == i {
                    assert(allocation_lt(before[x], a));
                } else if x < i {
                    assert(allocation_lt(before[x], a));
                    assert(allocation_lt(a, before[y - 1]));
                } else if x == i {
                    assert(allocation_lt(a, before[y - 1]));
                } else {
                    assert(allocation_lt(before[x - 1], before[y - 1]));
                }
            }
            assert(items@.to_set() =~= before.to_set().insert(a)) by {
                assert forall|v: Allocation| items@.contains(v) <==> before.contains(v) || v == a by {
                    if items@.contains(v) {
                        let k = choose|k: int| 0 <= k < items@.len() && items@[k] == v;
                        if k < i {
                            assert(before[k] == v);
                        } else if k > i {
                            assert(before[k - 1] == v);
                        }
                    }
                    if before.contains(v) {
                        let k = choose|k: int| 0 <= k < before.len() && before[k] == v;
                        if k < i {
                            assert(items@[k] == v);
                        } else {
                            assert(items@[k + 1] == v);
                        }
                    }
                    if v == a {
                        assert(items@[i as int] == a);
                    }
                }
            }
        }
        self.items = items;
    }

    /// Whether both sets hold the same allocations.
    pub fn same_as(&self, other: &AllocationSet) -> (r: bool)
        ensures
            r == (self@ == other@),
    {
        if self.items.len() != other.items.len() {
            return false;
        }
        let mut i: usize = 0;
        while i < self.items.len()
            invariant
                i <= self.items@.len(),
                self.items@.len() == other.items@.len(),
                forall|j: int| 0 <= j < i ==> self.items@[j] == other.items@[j],
            decreases self.items@.len() - i,
        {
            if self.items[i] != other.items[i] {
                return false;
            }
            i = i + 1;
        }
        assert(self.items@ =~= other.items@);
        true
    }
}

/// Why no firewall backend could be chosen.
#[derive(Debug, Clone, Copy, PartialEq, Eq, Structural)]
pub enum FirewallError {
    /// nftables was requested but `nft` is missing.
    NftablesUnavailable,
    /// iptables was requested but `iptables` or `iptables-restore` is missing.
    IptablesUnavailable,
    /// Neither tool set is installed.
    NoBackendAvailable,
}

/// A firewall tool set.
#[derive(Debug, Clone, Copy, PartialEq, Eq, Structural)]
pub enum Backend {
    Nftables,
    Iptables,
}

/// The backend for a preference given which tools are installed: the
/// requested one if available, and for `Auto` nftables before iptables.
pub open spec fn backend_choice(
    preference: FirewallPreference,
    nft_available: bool,
    iptables_available: bool,
) -> Result<Backend, FirewallError> {
    match preference {
        FirewallPreference::Nftables => if nft_available {
            Ok(Backend::Nftables)
        } else {
            Err(FirewallError::NftablesUnavailable)
        },
        FirewallPreference::Iptables => if iptables_available {
            Ok(Backend::Iptables)
        } else {
            Err(FirewallError::IptablesUnavailable)
        },
        FirewallPreference::Auto => if nft_available {
            Ok(Backend::Nftables)
        } else if iptables_available {
            Ok(Backend::Iptables)
        } else {
            Err(FirewallError::NoBackendAvailable)
        },
    }
}

/// Chooses the backend for a preference given which tools are installed.
pub fn choose_backend(
    preference: FirewallPreference,
    nft_available: bool,
    iptables_available: bool,
) -> (r: Result<Backend, FirewallError>)
    ensures
        r == backend_choice(preference, nft_available, iptables_available),
{
    match preference {
        FirewallPreference::Nftables if nft_available => Ok(Backend::Nftables),
        FirewallPreference::Iptables if iptables_available => Ok(Backend::Iptables),
        FirewallPreference::Auto if nft_available => Ok(Backend::Nftables),
        FirewallPreference::Auto if iptables_available => Ok(Backend::Iptables),
        FirewallPreference::Nftables => Err(FirewallError::NftablesUnavailable),
        FirewallPreference::Iptables => Err(FirewallError::IptablesUnavailable),
        FirewallPreference::Auto => Err(FirewallError::NoBackendAvailable),
    }
}

/// Law: the backend is nftables whenever nftables is available and was not
/// refused in favour of iptables; iptables only when asked for or when
/// nftables is missing; and an error only when the backend asked for (or,
/// for automatic choice, both) is missing.
pub proof fn backend_preference(
    preference: FirewallPreference,
    nft_available: bool,
    iptables_available: bool,
)
    ensures
        preference != FirewallPreference::Iptables && nft_available ==> backend_choice(
            preference,
            nft_available,
            iptables_available,
        ) == Ok::<Backend, FirewallError>(Backend::Nftables),
        backend_choice(preference, nft_available, iptables_available) == Ok::<
            Backend,
            FirewallError,
        >(Backend::Iptables) ==> iptables_available && (preference == FirewallPreference::Iptables
            || (preference == FirewallPreference::Auto && !nft_available)),
        backend_choice(preference, nft_available, iptables_available) is Err <==> match preference {
            FirewallPreference::Nftables => !nft_available,
            FirewallPreference::Iptables => !iptables_available,
            FirewallPreference::Auto => !nft_available && !iptables_available,
        },
{
}

/// What a reconcile asks of the firewall.
#[derive(Debug, Clone, Copy, PartialEq, Eq, Structural)]
pub enum ReconcileStep {
    /// The installed rules already cover the allocations.
    Nothing,
    /// Write the rules of this backend for the allocations.
    Apply(Backend),
}

/// The agent's view of its firewall rules: the backend in use, the port
/// redirected to, and the allocations the installed rules cover.
pub struct FirewallManager {
    backend: Backend,
    listen_port: u16,
    current_allocations: AllocationSet,
}

impl FirewallManager {
    /// The backend in use.
    pub closed spec fn spec_backend(&self) -> Backend {
        self.backend
    }

    /// The port connections are redirected to.
    pub closed spec fn spec_listen_port(&self) -> u16 {
        self.listen_port
    }

    /// The allocations the installed rules cover.
    pub closed spec fn installed(&self) -> Seq<Allocation> {
        self.current_allocations@
    }

    /// A manager for the chosen backend with no rules installed yet.
    pub fn detect(
        preference: FirewallPreference,
        listen_port: u16,
        nft_available: bool,
        iptables_available: bool,
    ) -> (r: Result<Self, FirewallError>)
        ensures
            match backend_choice(preference, nft_available, iptables_available) {
                Ok(b) => r matches Ok(m) && m.spec_backend() == b && m.spec_listen_port()
                    == listen_port && m.installed() == Seq::<Allocation>::empty(),
                Err(e) => r matches Err(err) && err == e,
            },
    {
        match choose_backend(preference, nft_available, iptables_available) {
            Ok(backend) => Ok(FirewallManager {
                backend,
                listen_port,
                current_allocations: AllocationSet::new(),
            }),
            Err(e) => Err(e),
        }
    }

    /// The backend in use.
    pub fn backend(&self) -> (r: Backend)
        ensures
            r == self.spec_backend(),
    {
        self.backend
    }

    /// The port connections are redirected to.
    pub fn listen_port(&self) -> (r: u16)
        ensures
            r == self.spec_listen_port(),
    {
        self.listen_port
    }

    /// Whether rules must be rewritten to cover `allocations`: only when they
    /// differ from what is installed.
    pub fn needs_reconcile(&self, allocations: &AllocationSet) -> (r: bool)
        ensures
            r == (allocations@.to_set() != self.installed().to_set()),
    {
        let _ = allocations.len();
        let _ = self.current_allocations.len();
        let same = allocations.same_as(&self.current_allocations);
        proof {
            if allocations@.to_set() == self.installed().to_set() {
                sorted_layout_unique(allocations@, self.current_allocations@);
            }
        }
        !same
    }

    /// What reconciling to `allocations` asks for.
    pub open spec fn reconcile_plan(&self, allocations: Seq<Allocation>) -> ReconcileStep {
        if allocations.to_set() == self.installed().to_set() {
            ReconcileStep::Nothing
        } else {
            ReconcileStep::Apply(self.spec_backend())
        }
    }

    /// The first step of reconciling to `allocations`: nothing when the
    /// installed rules already cover them, else writing the rules of the
    /// backend in use.
    pub fn reconcile_step(&self, allocations: &AllocationSet) -> (r: ReconcileStep)
        ensures
            r == self.reconcile_plan(allocations@),
    {
        if self.needs_reconcile(allocations) {
            ReconcileStep::Apply(self.backend)
        } else {
            ReconcileStep::Nothing
        }
    }

    /// The last step of reconciling to `allocations`: when the rules were
    /// written they now cover `allocations`; when writing them failed, the
    /// rules installed before stay recorded. The backend and port never
    /// change.
    pub fn finish_reconcile(&mut self, allocations: AllocationSet, applied: bool)
        ensures
            applied ==> final(self).installed() == allocations@,
            !applied ==> final(self).installed() == old(self).installed(),
            final(self).spec_backend() == old(self).spec_backend(),
            final(self).spec_listen_port() == old(self).spec_listen_port(),
    {
        if applied {
            self.current_allocations = allocations;
        }
    }

    /// Records that the agent's rules were removed.
    pub fn record_cleanup(&mut self)
        ensures
            final(self).installed() == Seq::<Allocation>::empty(),
            final(self).spec_backend() == old(self).spec_backend(),
            final(self).spec_listen_port() == old(self).spec_listen_port(),
    {
        self.current_allocations = AllocationSet::new();
    }
}

/// Law: reconciling is settled by success. Once the rules for a set of
/// allocations were written, asking for the same set again (in any order)
/// asks for nothing; a failed write leaves the manager as it was, so the
/// same request asks for the write again. Backend and port never change.
pub proof fn reconcile_settles(
    before: FirewallManager,
    after: FirewallManager,
    allocations: Seq<Allocation>,
    again: Seq<Allocation>,
    applied: bool,
)
    requires
        applied ==> after.installed() == allocations,
        !applied ==> after.installed() == before.installed(),
        after.spec_backend() == before.spec_backend(),
        after.spec_listen_port() == before.spec_listen_port(),
        again.to_set() == allocations.to_set(),
    ensures
        applied ==> after.reconcile_plan(again) == ReconcileStep::Nothing,
        !applied ==> after.reconcile_plan(again) == before.reconcile_plan(again),
        before.reconcile_plan(allocations) == ReconcileStep::Nothing ==> before.reconcile_plan(again)
            == ReconcileStep::Nothing,
{
}

/// How an nftables rule selects an allocation's destination address.
pub open spec fn nft_destination(ip: IpAddress) -> Seq<char> {
    match ip {
        IpAddress::V4(v) => if v == 0 {
            "meta nfproto ipv4"@
        } else {
            "ip daddr "@ + ipv4_text(v)
        },
        IpAddress::V6(v) => if v == 0 {
            "meta nfproto ipv6"@
        } else {
            "ip6 daddr "@ + ipv6_text(v)
        },
    }
}

/// The nftables rule redirecting one allocation to the agent.
pub open spec fn nft_rule(a: Allocation, listen_port: u16) -> Seq<char> {
    "    "@ + nft_destination(a.ip) + " tcp dport "@ + radix_text(a.port as nat, 10)
        + " redirect to :"@ + radix_text(listen_port as nat, 10)
        + " comment \"Calagopus Minecraft MOTD\"\n"@
}

/// The nftables rules for the allocations, in order.
pub open spec fn nft_rules(allocations: Seq<Allocation>, listen_port: u16) -> Seq<char>
    decreases allocations.len(),
{
    if allocations.len() == 0 {
        Seq::empty()
    } else {
        nft_rules(allocations.drop_last(), listen_port) + nft_rule(allocations.last(), listen_port)
    }
}

/// The nftables script that (re)creates the agent's table: it first deletes
/// the existing table when `replace` holds, then declares a NAT prerouting
/// chain with one redirect rule per allocation.
pub open spec fn nftables_script(listen_port: u16, allocations: Seq<Allocation>, replace: bool) -> Seq<
    char,
> {
    (if replace {
        "delete table inet calagopus_motd\n"@
    } else {
        Seq::empty()
    }) + "table inet calagopus_motd {\n  chain prerouting {\n    type nat hook prerouting priority dstnat; policy accept;\n"@
        + nft_rules(allocations, listen_port) + "  }\n}\n"@
}

fn push_nft_rule(out: &mut Vec<char>, a: Allocation, listen_port: u16)
    ensures
        final(out)@ == old(out)@ + nft_rule(a, listen_port),
{
    let ghost start = out@;
    push_str(out, "    ");
    match a.ip {
        IpAddress::V4(v) => {
            if v == 0 {
                push_str(out, "meta nfproto ipv4");
            } else {
                push_str(out, "ip daddr ");
                push_ip(out, a.ip);
            }
        },
        IpAddress::V6(v) => {
            if v == 0 {
                push_str(out, "meta nfproto ipv6");
            } else {
                push_str(out, "ip6 daddr ");
                push_ip(out, a.ip);
            }
        },
    }
    push_str(out, " tcp dport ");
    push_radix(out, a.port as u64, 10);
    push_str(out, " redirect to :");
    push_radix(out, listen_port as u64, 10);
    push_str(out, " comment \"Calagopus Minecraft MOTD\"\n");
    assert(out@ =~= start + nft_rule(a, listen_port));
}

/// The nftables script that installs the agent's redirects.
pub fn render_nftables(listen_port: u16, allocations: &AllocationSet, replace: bool) -> (r: String)
    ensures
        r@ == nftables_script(listen_port, allocations@, replace),
{
    let mut out: Vec<char> = Vec::new();
    if replace {
        push_str(&mut out, "delete table inet calagopus_motd\n");
    }
    push_str(
        &mut out,
        "table inet calagopus_motd {\n  chain prerouting {\n    type nat hook prerouting priority dstnat; policy accept;\n",
    );
    let ghost head = out@;
    let mut i: usize = 0;
    assert(allocations@.take(0) =~= Seq::<Allocation>::empty());
    assert(out@ =~= head + nft_rules(allocations@.take(0), listen_port));
    while i < allocations.len()
        invariant
            i <= allocations@.len(),
            out@ == head + nft_rules(allocations@.take(i as int), listen_port),
        decreases allocations@.len() - i,
    {
        push_nft_rule(&mut out, allocations.get(i), listen_port);
        assert(allocations@.take(i + 1).drop_last() =~= allocations@.take(i as int));
        i = i + 1;
    }
    assert(allocations@.take(i as int) =~= allocations@);
    push_str(&mut out, "  }\n}\n");
    assert(out@ =~= nftables_script(listen_port, allocations@, replace));
    string_of(&out)
}

/// The iptables-restore line redirecting one allocation to the agent.
pub open spec fn ipt_rule(a: Allocation, listen_port: u16) -> Seq<char> {
    "-A CALAGOPUS_MOTD -p tcp "@ + (if a.ip.spec_is_unspecified() {
        Seq::empty()
    } else {
        "-d "@ + ip_text(a.ip) + " "@
    }) + "--dport "@ + radix_text(a.port as nat, 10)
        + " -m comment --comment \"Calagopus Minecraft MOTD\" -j REDIRECT --to-ports "@
        + radix_text(listen_port as nat, 10) + "\n"@
}

/// The iptables-restore lines for the allocations of one address family, in
/// order.
pub open spec fn ipt_rules(allocations: Seq<Allocation>, listen_port: u16, ipv6: bool) -> Seq<char>
    decreases allocations.len(),
{
    if allocations.len() == 0 {
        Seq::empty()
    } else if (allocations.last().ip is V6) == ipv6 {
        ipt_rules(allocations.drop_last(), listen_port, ipv6) + ipt_rule(
            allocations.last(),
            listen_port,
        )
    } else {
        ipt_rules(allocations.drop_last(), listen_port, ipv6)
    }
}

/// The iptables-restore input that empties the agent's chain in the NAT table
/// and refills it with the redirects of one address family.
pub open spec fn iptables_restore_input(listen_port: u16, allocations: Seq<Allocation>, ipv6: bool) -> Seq<
    char,
> {
    "*nat\n:CALAGOPUS_MOTD - [0:0]\n-F CALAGOPUS_MOTD\n"@ + ipt_rules(allocations, listen_port, ipv6)
        + "COMMIT\n"@
}

fn push_ipt_rule(out: &mut Vec<char>, a: Allocation, listen_port: u16)
    ensures
        final(out)@ == old(out)@ + ipt_rule(a, listen_port),
{
    let ghost start = out@;
    push_str(out, "-A CALAGOPUS_MOTD -p tcp ");
    let ghost mid = out@;
    if !a.ip.is_unspecified() {
        push_str(out, "-d ");
        push_ip(out, a.ip);
        push_str(out, " ");
    }
    push_str(out, "--dport ");
    push_radix(out, a.port as u64, 10);
    push_str(out, " -m comment --comment \"Calagopus Minecraft MOTD\" -j REDIRECT --to-ports ");
    push_radix(out, listen_port as u64, 10);
    push_str(out, "\n");
    assert(out@ =~= start + ipt_rule(a, listen_port));
}

/// The iptables-restore input for one address family.
pub fn render_iptables(listen_port: u16, allocations: &AllocationSet, ipv6: bool) -> (r: String)
    ensures
        r@ == iptables_restore_input(listen_port, allocations@, ipv6),
{
    let mut out: Vec<char> = Vec::new();
    push_str(&mut out, "*nat\n:CALAGOPUS_MOTD - [0:0]\n-F CALAGOPUS_MOTD\n");
    let ghost head = out@;
    let mut i: usize = 0;
    assert(allocations@.take(0) =~= Seq::<Allocation>::empty());
    assert(out@ =~= head + ipt_rules(allocations@.take(0), listen_port, ipv6));
    while i < allocations.len()
        invariant
            i <= allocations@.len(),
            out@ == head + ipt_rules(allocations@.take(i as int), listen_port, ipv6),
        decreases allocations@.len() - i,
    {
        let a = allocations.get(i);
        assert(allocations@.take(i + 1).drop_last() =~= allocations@.take(i as int));
        assert(allocations@.take(i + 1).last() == a);
        if a.ip.is_ipv6() == ipv6 {
            push_ipt_rule(&mut out, a, listen_port);
        }
        i = i + 1;
    }
    assert(allocations@.take(i as int) =~= allocations@);
    push_str(&mut out, "COMMIT\n");
    assert(out@ =~= iptables_restore_input(listen_port, allocations@, ipv6));
    string_of(&out)
}

} // verus!
