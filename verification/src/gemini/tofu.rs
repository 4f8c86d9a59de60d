//! Trust on first use: a host's certificate is pinned by its SHA-256
//! fingerprint the first time it is seen.
use vstd::prelude::*;
use vstd::rwlock::{RwLock, RwLockPredicate};

use crate::text::{chars_eq, chars_of, string_of};

verus! {

/// A place that remembers each host's pinned fingerprint.
pub trait TofuStore {
    /// The fingerprint pinned for `host`, if any.
    fn fingerprint(&self, host: &str) -> Option<[u8; 32]>;

    /// Pins `fingerprint` for `host`.
    fn pin(&self, host: &str, fingerprint: [u8; 32]);
}

/// A store that never remembers, so every visit is a first contact.
#[derive(Debug, Default)]
pub struct PermissiveTofu;

impl TofuStore for PermissiveTofu {
    fn fingerprint(&self, host: &str) -> (r: Option<[u8; 32]>)
        ensures
            r is None,
    {
        None
    }

    fn pin(&self, host: &str, fingerprint: [u8; 32]) {
    }
}

/// The SHA-256 digest of some bytes, as `ring` computes it.
pub uninterp spec fn sha256(data: Seq<u8>) -> Seq<u8>;

/// `ring::digest::digest(&ring::digest::SHA256, data)`: the digest is the
/// SHA-256 of the bytes, and is 32 bytes long.
#[verifier::external_body]
fn sha256_digest(data: &[u8]) -> (r: Vec<u8>)
    ensures
        r@ == sha256(data@),
        r@.len() == 32,
{
    ring::digest::digest(&ring::digest::SHA256, data).as_ref().to_vec()
}

/// A certificate's fingerprint: the SHA-256 of its DER bytes.
pub fn fingerprint(cert_der: &[u8]) -> (r: [u8; 32])
    ensures
        r@ == sha256(cert_der@),
{
    let digest = sha256_digest(cert_der);
    let mut out = [0u8; 32];
    let mut i: usize = 0;
    while i < 32
        invariant
            i <= 32,
            digest@.len() == 32,
            out@.len() == 32,
            forall|j: int| 0 <= j < i ==> out@[j] == digest@[j],
        decreases 32 - i,
    {
        out.set(i, digest[i]);
        i = i + 1;
    }
    assert(out@ =~= digest@);
    out
}

/// Whether two fingerprints are the same bytes.
pub fn same_fingerprint(a: &[u8; 32], b: &[u8; 32]) -> (r: bool)
    ensures
        r == (a@ == b@),
{
    let mut i: usize = 0;
    let mut same = true;
    while i < 32
        invariant
            i <= 32,
            a@.len() == 32,
            b@.len() == 32,
            same == (forall|j: int| 0 <= j < i ==> a@[j] == b@[j]),
        decreases 32 - i,
    {
        same = same && a[i] == b[i];
        i = i + 1;
    }
    assert(same == (a@ == b@)) by {
        if same {
            assert(a@ =~= b@);
        }
    }
    same
}

/// Checks a server's leaf certificate against the host's pin: its
/// fingerprint, and whether it is accepted, which it is on a first contact
/// or when it matches the pin.
pub fn check_leaf(pinned: Option<[u8; 32]>, cert_der: &[u8]) -> (r: ([u8; 32], bool))
    ensures
        r.0@ == sha256(cert_der@),
        r.1 == match pinned {
            None => true,
            Some(p) => p@ == r.0@,
        },
{
    let seen = fingerprint(cert_der);
    let accepted = match pinned {
        None => true,
        Some(p) => same_fingerprint(&p, &seen),
    };
    (seen, accepted)
}

/// A lowercase hexadecimal digit.
pub open spec fn hex_digit(n: u8) -> char {
    if n < 10 {
        (n + 48) as char
    } else {
        (n - 10 + 97) as char
    }
}

/// Bytes as lowercase hexadecimal, two digits each.
pub open spec fn spec_hex(bytes: Seq<u8>) -> Seq<char>
    decreases bytes.len(),
{
    if bytes.len() == 0 {
        seq![]
    } else {
        spec_hex(bytes.drop_last()) + seq![hex_digit(bytes.last() / 16), hex_digit(bytes.last() % 16)]
    }
}

fn hex_char(n: u8) -> (r: char)
    requires
        n < 16,
    ensures
        r == hex_digit(n),
{
    if n < 10 {
        (n + 48) as char
    } else {
        (n - 10 + 97) as char
    }
}

/// Bytes as lowercase hexadecimal.
pub fn hex(bytes: &[u8]) -> (r: String)
    ensures
        r@ == spec_hex(bytes@),
{
    let mut v: Vec<char> = Vec::new();
    let mut i: usize = 0;
    assert(bytes@.take(0) =~= Seq::<u8>::empty());
    while i < bytes.len()
        invariant
            i <= bytes.len(),
            v@ == spec_hex(bytes@.take(i as int)),
        decreases bytes.len() - i,
    {
        let b = bytes[i];
        v.push(hex_char(b / 16));
        v.push(hex_char(b % 16));
        assert(bytes@.take(i + 1).drop_last() =~= bytes@.take(i as int));
        i = i + 1;
        assert(v@ =~= spec_hex(bytes@.take(i as int)));
    }
    assert(bytes@.take(bytes.len() as int) =~= bytes@);
    string_of(v.as_slice())
}


// ── Pins kept in memory ────────────────────────────────────────────────────

/// Host names with their pinned fingerprints, a host at most once.
pub struct PinTable {
    entries: Vec<(String, [u8; 32])>,
}

/// The entries over character sequences.
pub open spec fn entry_views(v: Seq<(String, [u8; 32])>) -> Seq<(Seq<char>, [u8; 32])> {
    v.map_values(|e: (String, [u8; 32])| (e.0@, e.1))
}

/// Each host occurs once.
pub open spec fn unique_hosts(s: Seq<(Seq<char>, [u8; 32])>) -> bool {
    forall|i: int, j: int| 0 <= i < j < s.len() ==> #[trigger] s[i].0 != #[trigger] s[j].0
}

/// The pins as a map from host to fingerprint.
pub open spec fn pin_map(s: Seq<(Seq<char>, [u8; 32])>) -> Map<Seq<char>, [u8; 32]>
    decreases s.len(),
{
    if s.len() == 0 {
        Map::empty()
    } else {
        pin_map(s.drop_last()).insert(s.last().0, s.last().1)
    }
}

/// What `pin_map` holds, said entry by entry.
proof fn lemma_pin_map(s: Seq<(Seq<char>, [u8; 32])>)
    requires
        unique_hosts(s),
    ensures
        forall|h: Seq<char>|
            #[trigger] pin_map(s).dom().contains(h) <==> exists|i: int|
                0 <= i < s.len() && #[trigger] s[i].0 == h,
        forall|i: int| 0 <= i < s.len() ==> #[trigger] pin_map(s)[s[i].0] == s[i].1,
    decreases s.len(),
{
    if s.len() > 0 {
        let t = s.drop_last();
        assert(unique_hosts(t)) by {
            assert forall|i: int, j: int| 0 <= i < j < t.len() implies #[trigger] t[i].0
                != #[trigger] t[j].0 by {
                assert(t[i] == s[i] && t[j] == s[j]);
            }
        }
        lemma_pin_map(t);
        assert forall|h: Seq<char>| #[trigger] pin_map(s).dom().contains(h) <==> exists|i: int|
            0 <= i < s.len() && #[trigger] s[i].0 == h by {
            if pin_map(t).dom().contains(h) {
                let i = choose|i: int| 0 <= i < t.len() && #[trigger] t[i].0 == h;
                assert(s[i] == t[i]);
            }
            if exists|i: int| 0 <= i < s.len() && #[trigger] s[i].0 == h {
                let i = choose|i: int| 0 <= i < s.len() && #[trigger] s[i].0 == h;
                if i < s.len() - 1 {
                    assert(t[i] == s[i]);
                }
            }
        }
        assert(pin_map(s) == pin_map(t).insert(s.last().0, s.last().1));
        assert forall|i: int| 0 <= i < s.len() implies #[trigger] pin_map(s)[s[i].0] == s[i].1 by {
            if i < s.len() - 1 {
                assert(t[i] == s[i]);
                assert(s[i].0 != s[s.len() - 1].0);
                assert(pin_map(t)[t[i].0] == t[i].1);
            }
        }
    }
}

impl PinTable {
    /// The pins held: each host's fingerprint.
    pub closed spec fn pins(&self) -> Map<Seq<char>, [u8; 32]> {
        pin_map(entry_views(self.entries@))
    }

    /// The table's invariant: no host twice.
    pub closed spec fn well_formed(&self) -> bool {
        unique_hosts(entry_views(self.entries@))
    }

    /// A table without pins.
    pub fn new() -> (r: Self)
        ensures
            r.well_formed(),
            r.pins() == Map::<Seq<char>, [u8; 32]>::empty(),
    {
        let r = PinTable { entries: Vec::new() };
        assert(entry_views(r.entries@) =~= Seq::<(Seq<char>, [u8; 32])>::empty());
        r
    }

    /// The fingerprint pinned for `host`, if any.
    pub fn get(&self, host: &str) -> (r: Option<[u8; 32]>)
        requires
            self.well_formed(),
        ensures
            r == (if self.pins().dom().contains(host@) {
                Some(self.pins()[host@])
            } else {
                None
            }),
    {
        let ghost s = entry_views(self.entries@);
        let h = chars_of(host);
        let mut i: usize = 0;
        while i < self.entries.len()
            invariant
                i <= self.entries.len(),
                s == entry_views(self.entries@),
                unique_hosts(s),
                h@ == host@,
                forall|k: int| 0 <= k < i ==> #[trigger] s[k].0 != host@,
            decreases self.entries.len() - i,
        {
            let e = chars_of(self.entries[i].0.as_str());
            if chars_eq(e.as_slice(), h.as_slice()) {
                proof {
                    lemma_pin_map(s);
                    assert(s[i as int] == (self.entries@[i as int].0@, self.entries@[i as int].1));
                    assert(s[i as int].0 == host@);
                    assert(pin_map(s)[s[i as int].0] == s[i as int].1);
                }
                return Some(self.entries[i].1);
            }
            i = i + 1;
        }
        proof {
            lemma_pin_map(s);
        }
        assert(!pin_map(s).dom().contains(host@));
        None
    }

    /// Pins `fingerprint` for `host`, in place of any earlier pin of it.
    pub fn set(&mut self, host: &str, fingerprint: [u8; 32])
        requires
            old(self).well_formed(),
        ensures
            final(self).well_formed(),
            final(self).pins() == old(self).pins().insert(host@, fingerprint),
    {
        let ghost s = entry_views(self.entries@);
        let h = chars_of(host);
        let mut i: usize = 0;
        while i < self.entries.len()
            invariant
                i <= self.entries.len(),
                s == entry_views(self.entries@),
                unique_hosts(s),
                self.entries@ == old(self).entries@,
                h@ == host@,
                forall|k: int| 0 <= k < i ==> #[trigger] s[k].0 != host@,
            decreases self.entries.len() - i,
        {
            let e = chars_of(self.entries[i].0.as_str());
            if chars_eq(e.as_slice(), h.as_slice()) {
                assert(s[i as int].0 == host@);
                self.entries.set(i, (host.to_string(), fingerprint));
                let ghost t = entry_views(self.entries@);
                assert(t =~= s.update(i as int, (host@, fingerprint)));
                assert(unique_hosts(t)) by {
                    assert forall|a: int, b: int| 0 <= a < b < t.len() implies #[trigger] t[a].0
                        != #[trigger] t[b].0 by {
                        assert(t[a].0 == s[a].0 && t[b].0 == s[b].0);
                    }
                }
                proof {
                    lemma_pin_map(s);
                    lemma_pin_map(t);
                    assert(pin_map(t) =~= pin_map(s).insert(host@, fingerprint)) by {
                        assert forall|x: Seq<char>| #[trigger] pin_map(t).dom().contains(x) <==> pin_map(
                            s,
                        ).insert(host@, fingerprint).dom().contains(x) by {
                            if exists|k: int| 0 <= k < t.len() && #[trigger] t[k].0 == x {
                                let k = choose|k: int| 0 <= k < t.len() && #[trigger] t[k].0 == x;
                                assert(s[k].0 == t[k].0);
                            }
                            if exists|k: int| 0 <= k < s.len() && #[trigger] s[k].0 == x {
                                let k = choose|k: int| 0 <= k < s.len() && #[trigger] s[k].0 == x;
                                assert(s[k].0 == t[k].0);
                            }
                        }
                        assert forall|x: Seq<char>| #[trigger] pin_map(t).dom().contains(x) implies pin_map(
                            t,
                        )[x] == pin_map(s).insert(host@, fingerprint)[x] by {
                            let k = choose|k: int| 0 <= k < t.len() && #[trigger] t[k].0 == x;
                            assert(pin_map(t)[t[k].0] == t[k].1);
                            if k != i {
                                assert(t[k] == s[k]);
                                assert(pin_map(s)[s[k].0] == s[k].1);
                            }
                        }
                    }
                }
                return;
            }
            i = i + 1;
        }
        self.entries.push((host.to_string(), fingerprint));
        let ghost t = entry_views(self.entries@);
        assert(t.last() == (host@, fingerprint));
        assert(t =~= s.push((host@, fingerprint)));
        assert(t.drop_last() =~= s);
        assert(unique_hosts(t)) by {
            assert forall|a: int, b: int| 0 <= a < b < t.len() implies #[trigger] t[a].0
                != #[trigger] t[b].0 by {
                if b == t.len() - 1 {
                    assert(t[a] == s[a]);
                } else {
                    assert(t[a] == s[a] && t[b] == s[b]);
                }
            }
        }
    }
}

/// The lock's invariant on the table it guards.
pub struct WellFormedTable;

impl RwLockPredicate<PinTable> for WellFormedTable {
    open spec fn inv(self, v: PinTable) -> bool {
        v.well_formed()
    }
}

/// Pins held for the life of the store, shared by every fetch of the
/// process.
pub struct InMemoryTofu {
    pins: RwLock<PinTable, WellFormedTable>,
}

impl InMemoryTofu {
    /// The lock guards tables that keep their invariant.
    #[verifier::type_invariant]
    spec fn guards_well_formed_tables(self) -> bool {
        self.pins.pred() == WellFormedTable
    }

    /// A store without pins.
    pub fn new() -> Self {
        InMemoryTofu { pins: RwLock::new(PinTable::new(), Ghost(WellFormedTable)) }
    }
}

impl TofuStore for InMemoryTofu {
    fn fingerprint(&self, host: &str) -> (r: Option<[u8; 32]>) {
        proof {
            use_type_invariant(self);
        }
        let handle = self.pins.acquire_read();
        let r = handle.borrow().get(host);
        handle.release_read();
        r
    }

    fn pin(&self, host: &str, fingerprint: [u8; 32]) {
        proof {
            use_type_invariant(self);
        }
        let (mut table, handle) = self.pins.acquire_write();
        table.set(host, fingerprint);
        handle.release_write(table);
    }
}

} // verus!
