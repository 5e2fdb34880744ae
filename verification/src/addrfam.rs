//! Address-family preference (`-4` / `-6`) and how it orders candidates.
//!
//! The flags are a preference, not a restriction: candidates of the requested family are
//! tried first, and the other family is still used where the preferred one is absent or
//! cannot be routed to.
use vstd::prelude::*;

use crate::net::SocketAddr;
use crate::text::{lower, text_eq, to_lower, trim, trim_both};

verus! {

/// Which IP version to try first when a name resolves to both.
#[derive(Debug, Clone, Copy, PartialEq, Eq, Structural)]
pub enum AddrPref {
    /// No explicit preference: the caller's own default order applies.
    Auto,
    /// Try IPv4 addresses first, fall back to IPv6.
    Ipv4,
    /// Try IPv6 addresses first, fall back to IPv4.
    Ipv6,
}

impl Default for AddrPref {
    /// No preference.
    fn default() -> (r: Self)
        ensures
            r == AddrPref::Auto,
    {
        AddrPref::Auto
    }
}

/// The preference that the configuration value `v` names, in any letter case and with
/// white space around it.
pub open spec fn config_pref(v: Seq<char>) -> AddrPref {
    let w = lower(trim(v));
    if w == "ipv4"@ || w == "v4"@ || w == "4"@ || w == "inet"@ {
        AddrPref::Ipv4
    } else if w == "ipv6"@ || w == "v6"@ || w == "6"@ || w == "inet6"@ {
        AddrPref::Ipv6
    } else {
        AddrPref::Auto
    }
}

/// The preference that the payload of an `ETRPREFER:` line names.
pub open spec fn wire_pref(v: Seq<char>) -> AddrPref {
    if trim(v) == "4"@ {
        AddrPref::Ipv4
    } else if trim(v) == "6"@ {
        AddrPref::Ipv6
    } else {
        AddrPref::Auto
    }
}

impl AddrPref {
    /// The preference that the two command-line flags ask for. Should both be set, IPv6
    /// wins.
    pub fn from_flags(prefer_ipv4: bool, prefer_ipv6: bool) -> (r: Self)
        ensures
            r == (if prefer_ipv6 {
                AddrPref::Ipv6
            } else if prefer_ipv4 {
                AddrPref::Ipv4
            } else {
                AddrPref::Auto
            }),
    {
        match (prefer_ipv4, prefer_ipv6) {
            (_, true) => AddrPref::Ipv6,
            (true, false) => AddrPref::Ipv4,
            (false, false) => AddrPref::Auto,
        }
    }

    /// Reads the `address_family` configuration value: `"ipv4"`, `"v4"`, `"4"`, `"inet"`
    /// and the IPv6 equivalents, in any letter case. Anything else is `Auto`, so a typo
    /// never selects the wrong family.
    pub fn from_config(value: Option<&str>) -> (r: Self)
        ensures
            r == (match value {
                Some(v) => config_pref(v@),
                None => AddrPref::Auto,
            }),
    {
        match value {
            None => AddrPref::Auto,
            Some(v) => {
                let w = to_lower(trim_both(v));
                let w = w.as_str();
                if text_eq(w, "ipv4") || text_eq(w, "v4") || text_eq(w, "4") || text_eq(w, "inet") {
                    AddrPref::Ipv4
                } else if text_eq(w, "ipv6") || text_eq(w, "v6") || text_eq(w, "6") || text_eq(
                    w,
                    "inet6",
                ) {
                    AddrPref::Ipv6
                } else {
                    AddrPref::Auto
                }
            },
        }
    }

    /// This preference, or `fallback` where this one is `Auto`.
    pub open spec fn or_else(self, fallback: AddrPref) -> AddrPref {
        if self == AddrPref::Auto {
            fallback
        } else {
            self
        }
    }

    /// This preference, or `fallback` where this one is `Auto`.
    pub fn or(self, fallback: AddrPref) -> (r: Self)
        ensures
            r == self.or_else(fallback),
    {
        match self {
            AddrPref::Auto => fallback,
            other => other,
        }
    }

    /// The `ssh(1)` flag for this preference, if any.
    pub fn ssh_flag(self) -> (r: Option<&'static str>)
        ensures
            match self {
                AddrPref::Auto => r is None,
                AddrPref::Ipv4 => r is Some && r.unwrap()@ == "-4"@,
                AddrPref::Ipv6 => r is Some && r.unwrap()@ == "-6"@,
            },
    {
        match self {
            AddrPref::Auto => None,
            AddrPref::Ipv4 => Some("-4"),
            AddrPref::Ipv6 => Some("-6"),
        }
    }

    /// The value that an `ETRPREFER:` line carries for this preference, if any.
    pub open spec fn wire_text(self) -> Option<Seq<char>> {
        match self {
            AddrPref::Auto => None,
            AddrPref::Ipv4 => Some("4"@),
            AddrPref::Ipv6 => Some("6"@),
        }
    }

    /// The value that an `ETRPREFER:` line carries for this preference, if any.
    pub fn wire(self) -> (r: Option<&'static str>)
        ensures
            match r {
                Some(v) => self.wire_text() == Some(v@),
                None => self.wire_text() is None,
            },
    {
        match self {
            AddrPref::Auto => None,
            AddrPref::Ipv4 => Some("4"),
            AddrPref::Ipv6 => Some("6"),
        }
    }

    /// Reads the payload of an `ETRPREFER:` line. Unknown values are `Auto`.
    pub fn from_wire(value: &str) -> (r: Self)
        ensures
            r == wire_pref(value@),
    {
        let v = trim_both(value);
        if text_eq(v, "4") {
            AddrPref::Ipv4
        } else if text_eq(v, "6") {
            AddrPref::Ipv6
        } else {
            AddrPref::Auto
        }
    }

    /// The name used in log messages.
    pub fn as_str(self) -> (r: &'static str)
        ensures
            r@ == (match self {
                AddrPref::Auto => "auto"@,
                AddrPref::Ipv4 => "ipv4"@,
                AddrPref::Ipv6 => "ipv6"@,
            }),
    {
        match self {
            AddrPref::Auto => "auto",
            AddrPref::Ipv4 => "ipv4",
            AddrPref::Ipv6 => "ipv6",
        }
    }

    /// Whether `addr` belongs to the preferred family. `Auto` prefers none.
    pub open spec fn prefers(self, addr: SocketAddr) -> bool {
        match self {
            AddrPref::Auto => false,
            AddrPref::Ipv4 => addr.v4(),
            AddrPref::Ipv6 => !addr.v4(),
        }
    }

    /// Whether `addr` belongs to the preferred family. `Auto` prefers none.
    pub fn matches(self, addr: &SocketAddr) -> (r: bool)
        ensures
            r == self.prefers(*addr),
    {
        match self {
            AddrPref::Auto => false,
            AddrPref::Ipv4 => addr.is_ipv4(),
            AddrPref::Ipv6 => addr.is_ipv6(),
        }
    }
}

/// Those of `addrs` that `pref` prefers (or, with `want` false, does not), in order.
pub open spec fn of_family(addrs: Seq<SocketAddr>, pref: AddrPref, want: bool) -> Seq<SocketAddr>
    decreases addrs.len(),
{
    if addrs.len() == 0 {
        Seq::empty()
    } else if pref.prefers(addrs.last()) == want {
        of_family(addrs.drop_last(), pref, want).push(addrs.last())
    } else {
        of_family(addrs.drop_last(), pref, want)
    }
}

/// `addrs` with the preferred family first; the order within a family stays.
pub open spec fn ordered(addrs: Seq<SocketAddr>, pref: AddrPref) -> Seq<SocketAddr> {
    of_family(addrs, pref, true) + of_family(addrs, pref, false)
}

/// Appends to `out` those of `addrs` that `pref` prefers, or does not.
fn push_family(out: &mut Vec<SocketAddr>, addrs: &[SocketAddr], pref: AddrPref, want: bool)
    ensures
        final(out)@ == old(out)@ + of_family(addrs@, pref, want),
{
    assert(addrs@.take(0) =~= Seq::empty());
    assert(out@ + Seq::empty() =~= out@);
    for i in 0..addrs.len()
        invariant
            out@ == old(out)@ + of_family(addrs@.take(i as int), pref, want),
    {
        let ghost upto = addrs@.take(i + 1);
        assert(upto.drop_last() =~= addrs@.take(i as int));
        assert(upto.last() == addrs@[i as int]);
        if pref.matches(&addrs[i]) == want {
            out.push(addrs[i]);
            assert(out@ =~= old(out)@ + of_family(upto, pref, want));
        }
    }
    assert(addrs@.take(addrs@.len() as int) =~= addrs@);
}

/// Reorders resolved addresses so that the preferred family comes first. The order within
/// a family stays, and `Auto` changes nothing.
pub fn order_by_family(addrs: &[SocketAddr], pref: AddrPref) -> (r: Vec<SocketAddr>)
    ensures
        r@ == ordered(addrs@, pref),
        pref == AddrPref::Auto ==> r@ == addrs@,
{
    let mut r: Vec<SocketAddr> = Vec::new();
    push_family(&mut r, addrs, pref, true);
    push_family(&mut r, addrs, pref, false);
    proof {
        assert(r@ =~= ordered(addrs@, pref));
        if pref == AddrPref::Auto {
            law_auto_keeps_order(addrs@);
        }
    }
    r
}

/// The address that a probe socket for `addr` binds to: any address of the same family.
pub fn probe_bind_address(addr: &SocketAddr) -> (r: &'static str)
    ensures
        r@ == (if addr.v4() {
            "0.0.0.0:0"@
        } else {
            "[::]:0"@
        }),
{
    if addr.is_ipv6() {
        "[::]:0"
    } else {
        "0.0.0.0:0"
    }
}

/// The place of the first `true`, or the length where there is none.
pub open spec fn first_true(flags: Seq<bool>) -> nat
    decreases flags.len(),
{
    if flags.len() == 0 || flags[0] {
        0
    } else {
        1 + first_true(flags.skip(1))
    }
}

/// The first address that there is a route to; `routable` says of each whether there is.
pub fn first_routable(addrs: &[SocketAddr], routable: &[bool]) -> (r: Option<SocketAddr>)
    requires
        addrs@.len() == routable@.len(),
    ensures
        first_true(routable@) <= addrs@.len(),
        match r {
            Some(a) => first_true(routable@) < addrs@.len() && a == addrs@[first_true(
                routable@,
            ) as int],
            None => first_true(routable@) == addrs@.len(),
        },
{
    assert(routable@.skip(0) =~= routable@);
    for i in 0..addrs.len()
        invariant
            addrs@.len() == routable@.len(),
            first_true(routable@) == i + first_true(routable@.skip(i as int)),
    {
        if routable[i] {
            return Some(addrs[i]);
        }
        assert(routable@.skip(i as int).skip(1) =~= routable@.skip(i + 1));
    }
    None
}

/// Picks one of `candidates`, which stand in order of preference: the first that there is
/// a route to, or else the first, so that the caller meets a real connection error. `None`
/// only where there is no candidate.
pub fn choose_preferred(candidates: &[SocketAddr], routable: &[bool]) -> (r: Option<SocketAddr>)
    requires
        candidates@.len() == routable@.len(),
    ensures
        r is None <==> candidates@.len() == 0,
        r matches Some(a) ==> a == candidates@[if first_true(routable@) < candidates@.len() {
            first_true(routable@) as int
        } else {
            0
        }],
{
    match first_routable(candidates, routable) {
        Some(a) => Some(a),
        None => if candidates.len() > 0 {
            Some(candidates[0])
        } else {
            None
        },
    }
}

/// The candidates for a forwarded UDP target: IPv6 first, unless `pref` says otherwise.
pub fn order_udp_target(addrs: &[SocketAddr], pref: AddrPref) -> (r: Vec<SocketAddr>)
    ensures
        r@ == ordered(addrs@, pref.or_else(AddrPref::Ipv6)),
{
    order_by_family(addrs, pref.or(AddrPref::Ipv6))
}

/// The addresses that a forwarded TCP stream may be connected to, to be tried one after the
/// other until one accepts.
pub struct Candidates {
    addrs: Vec<SocketAddr>,
    tried: usize,
}

impl Candidates {
    /// The addresses that are left to try, in order.
    pub closed spec fn view(self) -> Seq<SocketAddr> {
        self.addrs@.skip(self.tried as int)
    }

    /// Whether no more were tried than there are.
    pub closed spec fn wf(self) -> bool {
        self.tried <= self.addrs@.len()
    }

    /// All of `addrs`, the preferred family first.
    pub fn new(addrs: &[SocketAddr], pref: AddrPref) -> (r: Self)
        ensures
            r.wf(),
            r@ == ordered(addrs@, pref),
    {
        let r = Candidates { addrs: order_by_family(addrs, pref), tried: 0 };
        assert(r@ =~= ordered(addrs@, pref));
        r
    }

    /// The next address to try; `None` where all were tried.
    pub fn take_next(&mut self) -> (r: Option<SocketAddr>)
        requires
            old(self).wf(),
        ensures
            final(self).wf(),
            if old(self)@.len() == 0 {
                r is None && final(self)@ == old(self)@
            } else {
                r == Some(old(self)@[0]) && final(self)@ == old(self)@.skip(1)
            },
    {
        if self.tried >= self.addrs.len() {
            return None;
        }
        let next = self.addrs[self.tried];
        self.tried = self.tried + 1;
        assert(self@ =~= old(self)@.skip(1));
        Some(next)
    }
}

/// Whether one of `addrs` belongs to the preferred family.
pub fn family_available(addrs: &[SocketAddr], pref: AddrPref) -> (r: bool)
    ensures
        r == exists|i: int| 0 <= i < addrs@.len() && pref.prefers(#[trigger] addrs@[i]),
{
    for i in 0..addrs.len()
        invariant
            forall|j: int| 0 <= j < i ==> !pref.prefers(#[trigger] addrs@[j]),
    {
        if pref.matches(&addrs[i]) {
            return true;
        }
    }
    false
}

// ---------------------------------------------------------------------------
// Laws
// ---------------------------------------------------------------------------

/// What a preference puts on the wire is read back as that preference.
pub proof fn law_wire_round_trip(pref: AddrPref)
    ensures
        match pref.wire_text() {
            Some(v) => wire_pref(v) == pref,
            None => pref == AddrPref::Auto,
        },
{
    reveal_strlit("4");
    reveal_strlit("6");
    assert("4"@[0] != "6"@[0]);
    assert(trim("4"@) == "4"@);
    assert(trim("6"@) == "6"@);
}

/// Without a preference the order stays as it is.
pub proof fn law_auto_keeps_order(addrs: Seq<SocketAddr>)
    ensures
        ordered(addrs, AddrPref::Auto) == addrs,
    decreases addrs.len(),
{
    if addrs.len() > 0 {
        law_auto_keeps_order(addrs.drop_last());
        lemma_of_family(addrs.drop_last(), AddrPref::Auto, true);
        lemma_of_family(addrs, AddrPref::Auto, true);
    }
    lemma_of_family(addrs, AddrPref::Auto, true);
    if of_family(addrs, AddrPref::Auto, true).len() > 0 {
        assert(AddrPref::Auto.prefers(of_family(addrs, AddrPref::Auto, true)[0]));
    }
    assert(ordered(addrs, AddrPref::Auto) =~= addrs);
}

/// Ordering loses no address and adds none.
pub proof fn law_order_is_permutation(addrs: Seq<SocketAddr>, pref: AddrPref)
    ensures
        ordered(addrs, pref).to_multiset() == addrs.to_multiset(),
    decreases addrs.len(),
{
    broadcast use vstd::seq_lib::group_to_multiset_ensures;

    if addrs.len() > 0 {
        let init = addrs.drop_last();
        law_order_is_permutation(init, pref);
        vstd::seq_lib::lemma_multiset_commutative(
            of_family(init, pref, true),
            of_family(init, pref, false),
        );
        vstd::seq_lib::lemma_multiset_commutative(
            of_family(addrs, pref, true),
            of_family(addrs, pref, false),
        );
        assert(init.push(addrs.last()) =~= addrs);
        assert(ordered(addrs, pref).to_multiset() =~= addrs.to_multiset());
    } else {
        assert(ordered(addrs, pref) =~= addrs);
    }
}

/// No address of the preferred family stands behind one of the other family.
pub proof fn law_preferred_family_first(addrs: Seq<SocketAddr>, pref: AddrPref, i: int, j: int)
    requires
        0 <= i < j < addrs.len(),
    ensures
        ordered(addrs, pref).len() == addrs.len(),
        pref.prefers(ordered(addrs, pref)[j]) ==> pref.prefers(ordered(addrs, pref)[i]),
{
    lemma_of_family(addrs, pref, true);
    lemma_of_family(addrs, pref, false);
    lemma_ordered_len(addrs, pref);
    let yes = of_family(addrs, pref, true);
    let no = of_family(addrs, pref, false);
    let o = ordered(addrs, pref);
    if pref.prefers(o[j]) {
        if j >= yes.len() {
            assert(o[j] == no[j - yes.len()]);
        }
        assert(o[i] == yes[i]);
    }
}

proof fn lemma_of_family(addrs: Seq<SocketAddr>, pref: AddrPref, want: bool)
    ensures
        forall|i: int|
            0 <= i < of_family(addrs, pref, want).len() ==> pref.prefers(
                #[trigger] of_family(addrs, pref, want)[i],
            ) == want,
    decreases addrs.len(),
{
    if addrs.len() > 0 {
        let init = of_family(addrs.drop_last(), pref, want);
        let all = of_family(addrs, pref, want);
        lemma_of_family(addrs.drop_last(), pref, want);
        assert forall|i: int| 0 <= i < all.len() implies pref.prefers(#[trigger] all[i])
            == want by {
            if i < init.len() {
                assert(all[i] == init[i]);
            }
        }
    }
}

proof fn lemma_of_family_all(addrs: Seq<SocketAddr>, pref: AddrPref, want: bool)
    requires
        forall|i: int| 0 <= i < addrs.len() ==> pref.prefers(#[trigger] addrs[i]) == want,
    ensures
        of_family(addrs, pref, want) == addrs,
        of_family(addrs, pref, !want).len() == 0,
    decreases addrs.len(),
{
    if addrs.len() > 0 {
        let init = addrs.drop_last();
        assert forall|i: int| 0 <= i < init.len() implies pref.prefers(#[trigger] init[i])
            == want by {
            assert(init[i] == addrs[i]);
        }
        lemma_of_family_all(init, pref, want);
        assert(pref.prefers(addrs[addrs.len() - 1]) == want);
    }
    assert(of_family(addrs, pref, want) =~= addrs);
}

proof fn lemma_of_family_concat(
    a: Seq<SocketAddr>,
    b: Seq<SocketAddr>,
    pref: AddrPref,
    want: bool,
)
    ensures
        of_family(a + b, pref, want) == of_family(a, pref, want) + of_family(b, pref, want),
    decreases b.len(),
{
    if b.len() == 0 {
        assert(a + b =~= a);
    } else {
        assert((a + b).drop_last() =~= a + b.drop_last());
        lemma_of_family_concat(a, b.drop_last(), pref, want);
    }
    assert(of_family(a + b, pref, want) =~= of_family(a, pref, want) + of_family(b, pref, want));
}

/// Within each family the order stays as it was.
pub proof fn law_order_is_stable(addrs: Seq<SocketAddr>, pref: AddrPref, want: bool)
    ensures
        of_family(ordered(addrs, pref), pref, want) == of_family(addrs, pref, want),
{
    let yes = of_family(addrs, pref, true);
    let no = of_family(addrs, pref, false);
    lemma_of_family(addrs, pref, true);
    lemma_of_family(addrs, pref, false);
    lemma_of_family_all(yes, pref, true);
    lemma_of_family_all(no, pref, false);
    lemma_of_family_concat(yes, no, pref, want);
    assert(of_family(ordered(addrs, pref), pref, want) =~= of_family(addrs, pref, want));
}

proof fn lemma_ordered_len(addrs: Seq<SocketAddr>, pref: AddrPref)
    ensures
        ordered(addrs, pref).len() == addrs.len(),
    decreases addrs.len(),
{
    if addrs.len() > 0 {
        lemma_ordered_len(addrs.drop_last(), pref);
    }
}

/// The flags say which family comes first, and IPv6 where both are set; a flag overrules what
/// is used without one.
pub proof fn law_flags(v4: bool, v6: bool, r: AddrPref, fallback: AddrPref)
    requires
        call_ensures(AddrPref::from_flags, (v4, v6), r),
    ensures
        r == AddrPref::Ipv6 <==> v6,
        r == AddrPref::Ipv4 <==> v4 && !v6,
        r.or_else(fallback) == fallback <==> r == fallback || (!v4 && !v6),
        r != AddrPref::Auto ==> r.or_else(fallback) == r,
{
}

/// The configuration knows four names for each family, in any letter case and with white space
/// around; every other value is no preference.
pub proof fn law_config_names(v: Seq<char>)
    ensures
        ({
            let w = lower(trim(v));
            &&& config_pref(v) == AddrPref::Ipv4 <==> w == "ipv4"@ || w == "v4"@ || w == "4"@ || w
                == "inet"@
            &&& config_pref(v) == AddrPref::Ipv6 <==> w == "ipv6"@ || w == "v6"@ || w == "6"@ || w
                == "inet6"@
        }),
{
    reveal_strlit("ipv4");
    reveal_strlit("v4");
    reveal_strlit("4");
    reveal_strlit("inet");
    reveal_strlit("ipv6");
    reveal_strlit("v6");
    reveal_strlit("6");
    reveal_strlit("inet6");
    assert("ipv4"@[3] != "ipv6"@[3]);
    assert("v4"@[1] != "v6"@[1]);
    assert("4"@[0] != "6"@[0]);
    assert("inet"@[1] != "ipv6"@[1]);
    let w = lower(trim(v));
    if w == "ipv6"@ || w == "v6"@ || w == "6"@ || w == "inet6"@ {
        assert(w != "ipv4"@ && w != "v4"@ && w != "4"@ && w != "inet"@) by {
            assert("ipv4"@.len() == 4 && "v4"@.len() == 2 && "4"@.len() == 1 && "inet"@.len() == 4);
            assert("ipv6"@.len() == 4 && "v6"@.len() == 2 && "6"@.len() == 1 && "inet6"@.len()
                == 5);
        }
        assert(config_pref(v) == AddrPref::Ipv6);
    }
}

/// An address belongs to the family that its kind says, and no preference prefers any.
pub proof fn law_families(pref: AddrPref, addr: SocketAddr)
    ensures
        pref.prefers(addr) <==> (pref == AddrPref::Ipv4 && addr.ip is V4) || (pref == AddrPref::Ipv6
            && addr.ip is V6),
{
}

/// The first address with a route is taken; without any there is none to route to, and the
/// first of all is what is chosen.
pub proof fn law_first_route_counts(
    addrs: &[SocketAddr],
    routable: &[bool],
    i: int,
    first: Option<SocketAddr>,
    chosen: Option<SocketAddr>,
)
    requires
        addrs@.len() == routable@.len(),
        0 <= i <= addrs@.len(),
        i < addrs@.len() ==> routable@[i],
        forall|j: int| 0 <= j < i ==> !(#[trigger] routable@[j]),
        call_ensures(first_routable, (addrs, routable), first),
        call_ensures(choose_preferred, (addrs, routable), chosen),
    ensures
        i < addrs@.len() ==> first == Some(addrs@[i]) && chosen == Some(addrs@[i]),
        i == addrs@.len() ==> first is None,
        i == addrs@.len() && addrs@.len() > 0 ==> chosen == Some(addrs@[0]),
        addrs@.len() == 0 ==> chosen is None,
{
    lemma_first_true(routable@, i);
}

proof fn lemma_first_true(flags: Seq<bool>, i: int)
    requires
        0 <= i <= flags.len(),
        i < flags.len() ==> flags[i],
        forall|j: int| 0 <= j < i ==> !(#[trigger] flags[j]),
    ensures
        first_true(flags) == i,
    decreases flags.len(),
{
    if i > 0 {
        assert(!flags[0]);
        let rest = flags.skip(1);
        if i < flags.len() {
            assert(rest[i - 1] == flags[i]);
        }
        assert forall|j: int| 0 <= j < i - 1 implies !(#[trigger] rest[j]) by {
            assert(rest[j] == flags[j + 1]);
        }
        lemma_first_true(rest, i - 1);
    }
}

/// A forwarded UDP target without a preference is tried over IPv6 first; with one, the
/// preferred family first.
pub proof fn law_udp_prefers_ipv6(
    addrs: &[SocketAddr],
    pref: AddrPref,
    r: Vec<SocketAddr>,
    i: int,
    j: int,
)
    requires
        call_ensures(order_udp_target, (addrs, pref), r),
        0 <= i < j < addrs@.len(),
    ensures
        r@.len() == addrs@.len(),
        pref != AddrPref::Ipv4 && r@[j].ip is V6 ==> r@[i].ip is V6,
        pref == AddrPref::Ipv4 && r@[j].ip is V4 ==> r@[i].ip is V4,
        r@.to_multiset() == addrs@.to_multiset(),
{
    let p = pref.or_else(AddrPref::Ipv6);
    law_preferred_family_first(addrs@, p, i, j);
    law_order_is_permutation(addrs@, p);
}

/// A probe of an address is made from the same family.
pub proof fn law_probe_family(addr: SocketAddr, r: &'static str)
    requires
        call_ensures(probe_bind_address, (&addr,), r),
    ensures
        addr.ip is V4 ==> r@ == "0.0.0.0:0"@,
        addr.ip is V6 ==> r@ == "[::]:0"@,
{
}

/// The flag for `ssh` and the value on the wire are the number of the family.
pub proof fn law_family_numbers(pref: AddrPref, flag: Option<&'static str>)
    requires
        call_ensures(AddrPref::ssh_flag, (pref,), flag),
    ensures
        pref == AddrPref::Auto ==> flag is None && pref.wire_text() is None,
        pref == AddrPref::Ipv4 ==> (flag matches Some(f) && f@ == "-4"@) && pref.wire_text()
            == Some("4"@),
        pref == AddrPref::Ipv6 ==> (flag matches Some(f) && f@ == "-6"@) && pref.wire_text()
            == Some("6"@),
{
}

} // verus!
