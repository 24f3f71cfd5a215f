//! Devices: how nonces are cut into batches, what a batch is handed, and what
//! its result says.

use crate::hit::MineHit;
use crate::text::decimal_text;
use vstd::prelude::*;
use vstd::string::*;

verus! {

use crate::bytes::{be_nat, lemma_be_nat_concat, lemma_be_nat_injective, lemma_pow256_8, le_nat};
use crate::format::lemma_decimal;
use crate::text::decimal;

/// Threads in a workgroup.
pub const WORKGROUP_SIZE: u32 = 64;

/// Nonces that one thread tries.
pub const ITERATIONS_PER_THREAD: u32 = 16;

/// Nonces that one workgroup tries.
pub const NONCES_PER_WORKGROUP: u64 = 1024;

/// Workgroups that one dispatch may have.
pub const MAX_WORKGROUPS_PER_DISPATCH: u32 = 65535;

/// Nonces that one dispatch may try.
pub const MAX_BATCH_SIZE: u64 = 67_107_840;

/// The sizes fit together: a workgroup tries what its threads try, and the
/// largest batch is the largest dispatch.
pub proof fn law_batch_sizes()
    ensures
        NONCES_PER_WORKGROUP == WORKGROUP_SIZE * ITERATIONS_PER_THREAD,
        MAX_BATCH_SIZE == MAX_WORKGROUPS_PER_DISPATCH * NONCES_PER_WORKGROUP,
{
}

/// The workgroups for a batch of about `hint` nonces: as many as cover it, at
/// least one, at most as many as a dispatch may have.
pub open spec fn workgroups_for(hint: u64) -> u32 {
    let covering = (hint + NONCES_PER_WORKGROUP - 1) / NONCES_PER_WORKGROUP as int;
    if covering < 1 {
        1
    } else if covering > MAX_WORKGROUPS_PER_DISPATCH {
        MAX_WORKGROUPS_PER_DISPATCH
    } else {
        covering as u32
    }
}

/// The nonces in a batch of about `hint` nonces.
pub open spec fn batch_for(hint: u64) -> u64 {
    (workgroups_for(hint) * NONCES_PER_WORKGROUP) as u64
}

/// A batch is whole workgroups, at least one and no more than fit; it covers
/// what was asked for unless that is more than fits, by less than a workgroup;
/// and a batch so made is its own batch.
pub proof fn law_batch_covers_hint(hint: u64)
    ensures
        batch_for(hint) % NONCES_PER_WORKGROUP == 0,
        NONCES_PER_WORKGROUP <= batch_for(hint) <= MAX_BATCH_SIZE,
        batch_for(hint) == workgroups_for(hint) * NONCES_PER_WORKGROUP,
        hint == 0 ==> batch_for(hint) == NONCES_PER_WORKGROUP,
        hint <= MAX_BATCH_SIZE ==> hint <= batch_for(hint),
        0 < hint <= MAX_BATCH_SIZE ==> batch_for(hint) - hint < NONCES_PER_WORKGROUP,
        hint > MAX_BATCH_SIZE ==> batch_for(hint) == MAX_BATCH_SIZE,
        batch_for(batch_for(hint)) == batch_for(hint),
{
}

/// What a device is known by.
pub struct GpuMiner {
    pub adapter_name: String,
    pub backend: String,
    /// What tuning results are filed under.
    pub fingerprint: String,
}

/// Whether a miner is that of an adapter.
pub open spec fn is_miner_for(m: GpuMiner, a: Adapter) -> bool {
    &&& m.adapter_name == a.name
    &&& m.backend@ == a.backend.text()
    &&& m.fingerprint@ == fingerprint_of(a.name@, a.vendor, a.backend.text())
}

/// The fingerprint of an adapter.
pub open spec fn fingerprint_of(name: Seq<char>, vendor: u32, backend: Seq<char>) -> Seq<char> {
    name + "|"@ + decimal(vendor as nat) + "|"@ + backend
}

/// What stands before and after the last bar of a text is fixed by the text.
proof fn lemma_last_bar(a: Seq<char>, b: Seq<char>, c: Seq<char>, d: Seq<char>)
    requires
        a + "|"@ + b == c + "|"@ + d,
        !b.contains('|'),
        !d.contains('|'),
    ensures
        a == c,
        b == d,
{
    reveal_strlit("|");
    let (s, t) = (a + "|"@ + b, c + "|"@ + d);
    assert("|"@.len() == 1 && "|"@[0] == '|');
    assert(s.len() == a.len() + 1 + b.len() && t.len() == c.len() + 1 + d.len());
    if a.len() < c.len() {
        let i = c.len() - a.len() - 1;
        assert(t[c.len() as int] == '|');
        assert(s[c.len() as int] == b[i]);
        assert(b.contains('|'));
    } else if c.len() < a.len() {
        let i = a.len() - c.len() - 1;
        assert(s[a.len() as int] == '|');
        assert(t[a.len() as int] == d[i]);
        assert(d.contains('|'));
    }
    assert forall|i: int| 0 <= i < a.len() implies a[i] == c[i] by {
        assert(s[i] == t[i]);
    }
    assert forall|i: int| 0 <= i < b.len() implies b[i] == d[i] by {
        assert(s[a.len() + 1 + i] == t[a.len() + 1 + i]);
    }
    assert(a =~= c);
    assert(b =~= d);
}

/// Fingerprints tell devices apart: two miners have the same fingerprint exactly
/// where their adapters agree in name, vendor and backend.
pub proof fn law_fingerprints_tell_devices_apart(
    m1: GpuMiner,
    a1: Adapter,
    m2: GpuMiner,
    a2: Adapter,
)
    requires
        is_miner_for(m1, a1),
        is_miner_for(m2, a2),
    ensures
        m1.fingerprint@ == m1.adapter_name@ + "|"@ + decimal(a1.vendor as nat) + "|"@ + m1.backend@,
        m1.adapter_name@ == a1.name@,
        m1.backend@ == a1.backend.text(),
        m1.fingerprint@ == m2.fingerprint@ <==> a1.name@ == a2.name@ && a1.vendor == a2.vendor
            && a1.backend == a2.backend,
{
    a1.backend.lemma_name();
    a2.backend.lemma_name();
    if m1.fingerprint@ == m2.fingerprint@ {
        let (v1, v2) = (decimal(a1.vendor as nat), decimal(a2.vendor as nat));
        lemma_decimal(a1.vendor as nat);
        lemma_decimal(a2.vendor as nat);
        lemma_last_bar(
            a1.name@ + "|"@ + v1,
            a1.backend.text(),
            a2.name@ + "|"@ + v2,
            a2.backend.text(),
        );
        assert(!v1.contains('|') && !v2.contains('|'));
        lemma_last_bar(a1.name@, v1, a2.name@, v2);
    }
}

/// The kind of an adapter.
#[derive(Clone, Copy)]
pub enum DeviceKind {
    Other,
    IntegratedGpu,
    DiscreteGpu,
    VirtualGpu,
    Cpu,
}

/// An adapter that was found, and whether its device could be opened.
#[derive(Clone, Copy)]
pub struct AdapterProbe {
    pub kind: DeviceKind,
    pub opened: bool,
}

/// Why there is no device to mine on.
#[derive(Clone, Copy)]
pub enum GpuError {
    /// No adapter was found.
    NoAdapter,
    /// No adapter is of use.
    NoGpu,
}

impl GpuError {
    /// The error in words.
    pub open spec fn text(self) -> Seq<char> {
        match self {
            GpuError::NoAdapter => "找不到可用 GPU adapter"@,
            GpuError::NoGpu => "找不到任何可用 GPU"@,
        }
    }

    /// The error in words.
    pub fn message(&self) -> (t: String)
        ensures
            t@ == self.text(),
    {
        match self {
            GpuError::NoAdapter => "找不到可用 GPU adapter".to_owned(),
            GpuError::NoGpu => "找不到任何可用 GPU".to_owned(),
        }
    }
}

/// The interface that an adapter is driven through.
#[derive(Clone, Copy)]
pub enum Backend {
    Empty,
    Vulkan,
    Metal,
    Dx12,
    Gl,
    BrowserWebGpu,
}

impl Backend {
    /// The backend's name.
    pub open spec fn text(self) -> Seq<char> {
        match self {
            Backend::Empty => "Empty"@,
            Backend::Vulkan => "Vulkan"@,
            Backend::Metal => "Metal"@,
            Backend::Dx12 => "Dx12"@,
            Backend::Gl => "Gl"@,
            Backend::BrowserWebGpu => "BrowserWebGpu"@,
        }
    }

    /// The backend's name.
    pub fn name(&self) -> (t: String)
        ensures
            t@ == self.text(),
    {
        match self {
            Backend::Empty => "Empty".to_owned(),
            Backend::Vulkan => "Vulkan".to_owned(),
            Backend::Metal => "Metal".to_owned(),
            Backend::Dx12 => "Dx12".to_owned(),
            Backend::Gl => "Gl".to_owned(),
            Backend::BrowserWebGpu => "BrowserWebGpu".to_owned(),
        }
    }

    /// The first letter of a name tells it from all others, and no name has
    /// a bar in it.
    proof fn lemma_name(self)
        ensures
            self.text()[0] == match self {
                Backend::Empty => 'E',
                Backend::Vulkan => 'V',
                Backend::Metal => 'M',
                Backend::Dx12 => 'D',
                Backend::Gl => 'G',
                Backend::BrowserWebGpu => 'B',
            },
            !self.text().contains('|'),
    {
        reveal_strlit("Empty");
        reveal_strlit("Vulkan");
        reveal_strlit("Metal");
        reveal_strlit("Dx12");
        reveal_strlit("Gl");
        reveal_strlit("BrowserWebGpu");
    }
}

/// An adapter, by its name, its vendor's number and its backend.
pub struct Adapter {
    pub name: String,
    pub vendor: u32,
    pub backend: Backend,
}

/// Whether mining on a device of that kind is worth trying: not on a software
/// renderer, not on a virtual device.
pub open spec fn minable(kind: DeviceKind) -> bool {
    kind is IntegratedGpu || kind is DiscreteGpu
}

/// The positions of the adapters among the first `n` that are mined on.
pub open spec fn chosen_adapters(probes: Seq<AdapterProbe>, n: nat) -> Seq<usize>
    decreases n,
{
    if n == 0 {
        Seq::empty()
    } else {
        let before = chosen_adapters(probes, (n - 1) as nat);
        let probe = probes[n - 1];
        if minable(probe.kind) && probe.opened {
            before.push((n - 1) as usize)
        } else {
            before
        }
    }
}

/// Devices are mined on exactly where they are graphics devices of the machine's
/// own and could be opened, each once, in the order found.
pub proof fn law_chosen_are_the_real_devices(probes: Seq<AdapterProbe>, n: nat)
    requires
        n <= probes.len(),
        probes.len() <= usize::MAX,
    ensures
        forall|i: usize| #[trigger]
            chosen_adapters(probes, n).contains(i) <==> i < n && probes[i as int].opened && (
            probes[i as int].kind is IntegratedGpu || probes[i as int].kind is DiscreteGpu),
        forall|j: int, k: int|
            0 <= j < k < chosen_adapters(probes, n).len() ==> chosen_adapters(probes, n)[j]
                < chosen_adapters(probes, n)[k],
    decreases n,
{
    if n > 0 {
        let m = (n - 1) as nat;
        law_chosen_are_the_real_devices(probes, m);
        let (before, now) = (chosen_adapters(probes, m), chosen_adapters(probes, n));
        assert forall|k: int| 0 <= k < before.len() implies #[trigger] before[k] < m by {
            assert(before.contains(before[k]));
        }
        assert forall|i: usize| #[trigger] now.contains(i) <==> i < n && probes[i as int].opened && (
        probes[i as int].kind is IntegratedGpu || probes[i as int].kind is DiscreteGpu) by {
            if now.contains(i) {
                let k = choose|k: int| 0 <= k < now.len() && now[k] == i;
                if k < before.len() {
                    assert(before[k] == i);
                    assert(before.contains(i));
                }
            }
            if before.contains(i) {
                let k = choose|k: int| 0 <= k < before.len() && before[k] == i;
                assert(now[k] == i);
            }
            if i == m && now.len() > before.len() {
                assert(now[before.len() as int] == i);
            }
        }
    }
}

impl GpuMiner {
    /// The miner for the one adapter that was asked for, if there is one.
    pub fn new(adapter: Option<Adapter>) -> (r: Result<GpuMiner, GpuError>)
        ensures
            match adapter {
                Some(a) => r is Ok && is_miner_for(r->Ok_0, a),
                None => r == Err::<GpuMiner, GpuError>(GpuError::NoAdapter),
            },
    {
        match adapter {
            Some(a) => Ok(Self::from_adapter(a)),
            None => Err(GpuError::NoAdapter),
        }
    }

    /// The miner for an adapter.
    pub fn from_adapter(a: Adapter) -> (m: GpuMiner)
        ensures
            is_miner_for(m, a),
            m.adapter_name@ == a.name@,
            m.backend@ == a.backend.text(),
            m.fingerprint@ == a.name@ + "|"@ + decimal(a.vendor as nat) + "|"@ + a.backend.text(),
    {
        let mut fingerprint: String = a.name.clone();
        fingerprint.append("|");
        fingerprint.append(decimal_text(a.vendor as u64).as_str());
        fingerprint.append("|");
        let backend: String = a.backend.name();
        fingerprint.append(backend.as_str());
        GpuMiner { adapter_name: a.name, backend, fingerprint }
    }

    /// Whether an adapter of that kind is opened at all.
    pub fn is_minable(kind: DeviceKind) -> (r: bool)
        ensures
            r == minable(kind),
    {
        match kind {
            DeviceKind::IntegratedGpu => true,
            DeviceKind::DiscreteGpu => true,
            _ => false,
        }
    }

    /// The adapters to mine on, by their positions, in the order found: those
    /// of a minable kind that could be opened.
    pub fn enumerate_all(probes: &Vec<AdapterProbe>) -> (r: Result<Vec<usize>, GpuError>)
        ensures
            r is Err <==> chosen_adapters(probes@, probes@.len()).len() == 0,
            r is Err <==> forall|i: int|
                0 <= i < probes@.len() ==> !(#[trigger] probes@[i].opened && (
                probes@[i].kind is IntegratedGpu || probes@[i].kind is DiscreteGpu)),
            r matches Err(e) ==> e == GpuError::NoGpu,
            r matches Ok(chosen) ==> chosen@ == chosen_adapters(probes@, probes@.len()),
            r matches Ok(chosen) ==> forall|i: usize| #[trigger]
                chosen@.contains(i) <==> i < probes@.len() && probes@[i as int].opened && (
                probes@[i as int].kind is IntegratedGpu || probes@[i as int].kind is DiscreteGpu),
            r matches Ok(chosen) ==> forall|j: int, k: int|
                0 <= j < k < chosen@.len() ==> chosen@[j] < chosen@[k],
    {
        let mut chosen: Vec<usize> = Vec::new();
        let mut i: usize = 0;
        while i < probes.len()
            invariant
                i <= probes@.len(),
                chosen@ == chosen_adapters(probes@, i as nat),
            decreases probes.len() - i,
        {
            if Self::is_minable(probes[i].kind) && probes[i].opened {
                chosen.push(i);
            }
            i = i + 1;
        }
        proof {
            law_chosen_are_the_real_devices(probes@, probes@.len());
            assert forall|j: int| 0 <= j < probes@.len() implies (chosen@.contains(j as usize)
                <==> #[trigger] probes@[j].opened && (probes@[j].kind is IntegratedGpu
                || probes@[j].kind is DiscreteGpu)) by {}
            if chosen@.len() > 0 {
                assert(chosen@.contains(chosen@[0]));
            }
        }
        if chosen.len() == 0 {
            Err(GpuError::NoGpu)
        } else {
            Ok(chosen)
        }
    }

    /// The batch for a hint, aligned to whole workgroups and held to what a
    /// dispatch may have, and its workgroups.
    pub fn normalize_batch(hint: u64) -> (r: (u64, u32))
        ensures
            r.0 == batch_for(hint),
            r.1 == workgroups_for(hint),
            r.0 == r.1 * NONCES_PER_WORKGROUP,
            1 <= r.1 <= MAX_WORKGROUPS_PER_DISPATCH,
            hint <= MAX_BATCH_SIZE ==> hint <= r.0,
            r.1 > 1 ==> r.0 - NONCES_PER_WORKGROUP < hint,
    {
        let whole: u64 = hint / NONCES_PER_WORKGROUP;
        let covering: u64 = if hint % NONCES_PER_WORKGROUP == 0 {
            whole
        } else {
            whole + 1
        };
        let wg: u32 = if covering < 1 {
            1
        } else if covering > MAX_WORKGROUPS_PER_DISPATCH as u64 {
            MAX_WORKGROUPS_PER_DISPATCH
        } else {
            covering as u32
        };
        (wg as u64 * NONCES_PER_WORKGROUP, wg)
    }
}

/// What a dispatch is handed.
#[derive(Clone, Copy)]
pub struct Uniforms {
    pub challenge: [u32; 8],
    pub difficulty: [u32; 8],
    pub nonce_base_lo: u32,
    pub nonce_base_hi: u32,
    pub pad0: u32,
    pub pad1: u32,
}

/// Four bytes of a byte string, from the `i`-th group of four.
pub open spec fn quad(s: Seq<u8>, i: int) -> Seq<u8> {
    s.subrange(4 * i, 4 * i + 4)
}

/// Whether `u` is what a dispatch from `nonce_base` is handed: the challenge as
/// little-endian words, the difficulty as big-endian words, the first nonce in
/// two halves.
pub open spec fn uniforms_hold(
    u: Uniforms,
    challenge: Seq<u8>,
    difficulty: Seq<u8>,
    nonce_base: u64,
) -> bool {
    &&& forall|i: int|
        0 <= i < 8 ==> #[trigger] u.challenge@[i] == le_nat(quad(challenge, i))
    &&& forall|i: int|
        0 <= i < 8 ==> #[trigger] u.difficulty@[i] == be_nat(quad(difficulty, i))
    &&& u.nonce_base_lo == nonce_base % 0x1_0000_0000
    &&& u.nonce_base_hi == nonce_base / 0x1_0000_0000
    &&& u.pad0 == 0
    &&& u.pad1 == 0
}

/// The numbers of four bytes, spelled out.
proof fn lemma_quad(s: Seq<u8>)
    requires
        s.len() == 4,
    ensures
        be_nat(s) == s[0] * 0x100_0000 + s[1] * 0x1_0000 + s[2] * 0x100 + s[3],
        le_nat(s) == s[3] * 0x100_0000 + s[2] * 0x1_0000 + s[1] * 0x100 + s[0],
{
    reveal_with_fuel(be_nat, 5);
    let r = s.reverse();
    assert(s.drop_last().drop_last().drop_last().drop_last().len() == 0);
    assert(r.drop_last().drop_last().drop_last().drop_last().len() == 0);
}

/// The `i`-th group of four bytes as a little-endian word.
fn le_word(bytes: &[u8; 32], i: usize) -> (w: u32)
    requires
        i < 8,
    ensures
        w == le_nat(quad(bytes@, i as int)),
{
    proof {
        lemma_quad(quad(bytes@, i as int));
    }
    bytes[4 * i + 3] as u32 * 0x100_0000 + bytes[4 * i + 2] as u32 * 0x1_0000 + bytes[4 * i
        + 1] as u32 * 0x100 + bytes[4 * i] as u32
}

/// The `i`-th group of four bytes as a big-endian word.
fn be_word(bytes: &[u8; 32], i: usize) -> (w: u32)
    requires
        i < 8,
    ensures
        w == be_nat(quad(bytes@, i as int)),
{
    proof {
        lemma_quad(quad(bytes@, i as int));
    }
    bytes[4 * i] as u32 * 0x100_0000 + bytes[4 * i + 1] as u32 * 0x1_0000 + bytes[4 * i
        + 2] as u32 * 0x100 + bytes[4 * i + 3] as u32
}

/// What a dispatch from `nonce_base` is handed.
pub fn make_uniforms(challenge: &[u8; 32], difficulty: &[u8; 32], nonce_base: u64) -> (u: Uniforms)
    ensures
        uniforms_hold(u, challenge@, difficulty@, nonce_base),
        forall|i: int|
            0 <= i < 8 ==> #[trigger] u.challenge@[i] == challenge@[4 * i] + 0x100 * challenge@[4
                * i + 1] + 0x1_0000 * challenge@[4 * i + 2] + 0x100_0000 * challenge@[4 * i + 3],
        forall|i: int|
            0 <= i < 8 ==> #[trigger] u.difficulty@[i] == 0x100_0000 * difficulty@[4 * i]
                + 0x1_0000 * difficulty@[4 * i + 1] + 0x100 * difficulty@[4 * i + 2]
                + difficulty@[4 * i + 3],
        u.nonce_base_lo + 0x1_0000_0000 * u.nonce_base_hi == nonce_base,
{
    let mut u: Uniforms = Uniforms {
        challenge: [0; 8],
        difficulty: [0; 8],
        nonce_base_lo: (nonce_base % 0x1_0000_0000) as u32,
        nonce_base_hi: (nonce_base / 0x1_0000_0000) as u32,
        pad0: 0,
        pad1: 0,
    };
    let mut i: usize = 0;
    while i < 8
        invariant
            i <= 8,
            forall|j: int| 0 <= j < i ==> #[trigger] u.challenge@[j] == le_nat(quad(challenge@, j)),
            forall|j: int|
                0 <= j < i ==> #[trigger] u.difficulty@[j] == be_nat(quad(difficulty@, j)),
            u.nonce_base_lo == nonce_base % 0x1_0000_0000,
            u.nonce_base_hi == nonce_base / 0x1_0000_0000,
            u.pad0 == 0,
            u.pad1 == 0,
        decreases 8 - i,
    {
        u.challenge[i] = le_word(challenge, i);
        u.difficulty[i] = be_word(difficulty, i);
        i = i + 1;
    }
    proof {
        law_dispatch_reaches_the_device(u, challenge@, difficulty@, nonce_base);
    }
    u
}

/// What a device leaves behind after a dispatch.
#[derive(Clone, Copy)]
pub struct ResultBuffer {
    pub found: u32,
    pub nonce_lo: u32,
    pub nonce_hi: u32,
    pub pad: u32,
    pub hash: [u32; 8],
}

/// Whether `hit` is what `r` reports: the nonce from its two halves, the hash
/// from its words, each of them big-endian.
pub open spec fn reports(r: ResultBuffer, hit: MineHit) -> bool {
    &&& hit.nonce == r.nonce_hi * 0x1_0000_0000 + r.nonce_lo
    &&& forall|i: int| 0 <= i < 8 ==> be_nat(#[trigger] quad(hit.hash_be@, i)) == r.hash@[i]
}

impl ResultBuffer {
    /// The buffer before a dispatch: nothing found.
    pub fn cleared() -> (r: ResultBuffer)
        ensures
            r.found == 0,
            r.nonce_lo == 0,
            r.nonce_hi == 0,
            r.pad == 0,
            r.hash@ == Seq::new(8, |i: int| 0u32),
    {
        let hash: [u32; 8] = [0; 8];
        assert(hash@ =~= Seq::new(8, |i: int| 0u32));
        ResultBuffer { found: 0, nonce_lo: 0, nonce_hi: 0, pad: 0, hash }
    }

    /// The hit that the device reports, if it found one.
    pub fn hit(&self) -> (found: Option<MineHit>)
        ensures
            found is Some <==> self.found > 0,
            found matches Some(hit) ==> reports(*self, hit),
            found matches Some(hit) ==> hit.nonce == self.nonce_lo + 0x1_0000_0000 * self.nonce_hi,
            found matches Some(hit) ==> forall|i: int|
                0 <= i < 8 ==> #[trigger] self.hash@[i] == 0x100_0000 * hit.hash_be@[4 * i]
                    + 0x1_0000 * hit.hash_be@[4 * i + 1] + 0x100 * hit.hash_be@[4 * i + 2]
                    + hit.hash_be@[4 * i + 3],
    {
        if self.found == 0 {
            return None;
        }
        let nonce: u64 = self.nonce_hi as u64 * 0x1_0000_0000 + self.nonce_lo as u64;
        let mut hash_be: [u8; 32] = [0; 32];
        let mut i: usize = 0;
        while i < 8
            invariant
                i <= 8,
                forall|j: int| 0 <= j < i ==> be_nat(#[trigger] quad(hash_be@, j)) == self.hash@[j],
            decreases 8 - i,
        {
            let w: u32 = self.hash[i];
            let ghost before = hash_be@;
            hash_be[4 * i] = (w / 0x100_0000) as u8;
            hash_be[4 * i + 1] = (w / 0x1_0000 % 0x100) as u8;
            hash_be[4 * i + 2] = (w / 0x100 % 0x100) as u8;
            hash_be[4 * i + 3] = (w % 0x100) as u8;
            proof {
                lemma_quad(quad(hash_be@, i as int));
                assert forall|j: int| 0 <= j < i + 1 implies be_nat(#[trigger] quad(hash_be@, j))
                    == self.hash@[j] by {
                    if j < i {
                        assert(quad(hash_be@, j) =~= quad(before, j));
                    }
                }
            }
            i = i + 1;
        }
        let hit: MineHit = MineHit { nonce, hash_be };
        proof {
            law_hit_is_read_from_the_device(*self, hit);
        }
        Some(hit)
    }
}

/// The number that big-endian words stand for, the first word the highest.
pub open spec fn words_nat(w: Seq<u32>) -> nat
    decreases w.len(),
{
    if w.len() == 0 {
        0
    } else {
        words_nat(w.drop_last()) * 0x1_0000_0000 + w.last() as nat
    }
}

/// Words that hold a byte string in big-endian groups of four stand for the
/// number that the bytes stand for.
proof fn lemma_words_of_bytes(w: Seq<u32>, s: Seq<u8>)
    requires
        s.len() == 4 * w.len(),
        forall|i: int| 0 <= i < w.len() ==> be_nat(#[trigger] quad(s, i)) == w[i],
    ensures
        words_nat(w) == be_nat(s),
    decreases w.len(),
{
    if w.len() > 0 {
        let n = w.len() - 1;
        let head = s.take(4 * n);
        assert forall|i: int| 0 <= i < n implies be_nat(#[trigger] quad(head, i)) == w.drop_last()[i] by {
            assert(quad(head, i) =~= quad(s, i));
        }
        lemma_words_of_bytes(w.drop_last(), head);
        assert(head + quad(s, n) =~= s);
        lemma_be_nat_concat(head, quad(s, n));
        lemma_pow256_8();
    }
}

/// A device that compares its hash words with the difficulty words, first word
/// first, decides what the CPU decides on the bytes: both stand for the same
/// numbers.
pub proof fn law_words_decide_as_bytes(
    u: Uniforms,
    challenge: Seq<u8>,
    difficulty: Seq<u8>,
    nonce_base: u64,
    r: ResultBuffer,
    hit: MineHit,
)
    requires
        difficulty.len() == 32,
        uniforms_hold(u, challenge, difficulty, nonce_base),
        reports(r, hit),
    ensures
        words_nat(u.difficulty@) == be_nat(difficulty),
        words_nat(r.hash@) == be_nat(hit.hash_be@),
        words_nat(r.hash@) < words_nat(u.difficulty@) <==> be_nat(hit.hash_be@) < be_nat(
            difficulty,
        ),
{
    assert forall|i: int| 0 <= i < 8 implies be_nat(#[trigger] quad(difficulty, i))
        == u.difficulty@[i] by {
        assert(u.difficulty@[i] == be_nat(quad(difficulty, i)));
    }
    lemma_words_of_bytes(u.difficulty@, difficulty);
    lemma_words_of_bytes(r.hash@, hit.hash_be@);
}

/// Byte strings that agree in every group of four are equal.
proof fn lemma_quads_fix_bytes(s: Seq<u8>, t: Seq<u8>)
    requires
        s.len() == 32,
        t.len() == 32,
        forall|i: int| 0 <= i < 8 ==> #[trigger] quad(s, i) == quad(t, i),
    ensures
        s == t,
{
    assert forall|k: int| 0 <= k < 32 implies s[k] == t[k] by {
        assert(quad(s, k / 4)[k % 4] == s[k]);
        assert(quad(t, k / 4)[k % 4] == t[k]);
    }
    assert(s =~= t);
}

/// A result buffer reports one hit only.
pub proof fn law_report_is_fixed(r: ResultBuffer, a: MineHit, b: MineHit)
    requires
        reports(r, a),
        reports(r, b),
    ensures
        a.nonce == b.nonce,
        a.hash_be@ == b.hash_be@,
{
    assert forall|i: int| 0 <= i < 8 implies #[trigger] quad(a.hash_be@, i) == quad(b.hash_be@, i) by {
        lemma_be_nat_injective(quad(a.hash_be@, i), quad(b.hash_be@, i));
    }
    lemma_quads_fix_bytes(a.hash_be@, b.hash_be@);
}

/// Nothing is lost on the way to the device: what a dispatch is handed fixes the
/// challenge, the difficulty and the first nonce.
pub proof fn law_uniforms_lose_nothing(
    u: Uniforms,
    challenge1: Seq<u8>,
    difficulty1: Seq<u8>,
    nonce1: u64,
    challenge2: Seq<u8>,
    difficulty2: Seq<u8>,
    nonce2: u64,
)
    requires
        challenge1.len() == 32,
        challenge2.len() == 32,
        difficulty1.len() == 32,
        difficulty2.len() == 32,
        uniforms_hold(u, challenge1, difficulty1, nonce1),
        uniforms_hold(u, challenge2, difficulty2, nonce2),
    ensures
        challenge1 == challenge2,
        difficulty1 == difficulty2,
        nonce1 == nonce2,
{
    assert forall|i: int| 0 <= i < 8 implies #[trigger] quad(difficulty1, i) == quad(
        difficulty2,
        i,
    ) by {
        assert(u.difficulty@[i] == be_nat(quad(difficulty1, i)));
        lemma_be_nat_injective(quad(difficulty1, i), quad(difficulty2, i));
    }
    lemma_quads_fix_bytes(difficulty1, difficulty2);
    assert forall|i: int| 0 <= i < 8 implies #[trigger] quad(challenge1, i) == quad(challenge2, i) by {
        let (s, t) = (quad(challenge1, i), quad(challenge2, i));
        assert(u.challenge@[i] == le_nat(s));
        lemma_be_nat_injective(s.reverse(), t.reverse());
        assert(s =~= s.reverse().reverse());
        assert(t =~= t.reverse().reverse());
    }
    lemma_quads_fix_bytes(challenge1, challenge2);
}

/// Whether `bytes` are the words in the byte order of some machine: all of them
/// little-endian, or all of them big-endian.
pub open spec fn machine_bytes(words: Seq<u32>, bytes: Seq<u8>) -> bool {
    &&& bytes.len() == 4 * words.len()
    &&& {
        ||| forall|i: int| 0 <= i < words.len() ==> le_nat(#[trigger] quad(bytes, i)) == words[i]
        ||| forall|i: int| 0 <= i < words.len() ==> be_nat(#[trigger] quad(bytes, i)) == words[i]
    }
}

/// `bytemuck::cast_slice`: the words as they lie in memory. Their byte order is
/// the machine's, and is left open.
#[verifier::external_body]
fn words_to_bytes(words: &[u32]) -> (bytes: Vec<u8>)
    ensures
        machine_bytes(words@, bytes@),
{
    bytemuck::cast_slice(words).to_vec()
}

/// `bytemuck::pod_read_unaligned`: the words that the bytes hold. Their byte
/// order is the machine's, and is left open. It panics where there are not 48
/// bytes.
#[verifier::external_body]
fn words_from_bytes(bytes: &[u8]) -> (words: [u32; 12])
    requires
        bytes@.len() == 48,
    ensures
        machine_bytes(words@, bytes@),
{
    bytemuck::pod_read_unaligned(bytes)
}

/// The bytes of a `Uniforms` buffer.
pub const UNIFORMS_BYTES: usize = 80;

/// The bytes of a `ResultBuffer`.
pub const RESULT_BYTES: usize = 48;

impl Uniforms {
    /// The words of the buffer, in order.
    pub open spec fn words(self) -> Seq<u32> {
        self.challenge@ + self.difficulty@ + seq![
            self.nonce_base_lo,
            self.nonce_base_hi,
            self.pad0,
            self.pad1,
        ]
    }

    /// The words of the buffer, in order.
    pub fn to_words(&self) -> (w: [u32; 20])
        ensures
            w@ == self.words(),
            forall|i: int| 0 <= i < 8 ==> #[trigger] w@[i] == self.challenge@[i],
            forall|i: int| 8 <= i < 16 ==> #[trigger] w@[i] == self.difficulty@[i - 8],
            w@[16] == self.nonce_base_lo,
            w@[17] == self.nonce_base_hi,
            w@[18] == self.pad0,
            w@[19] == self.pad1,
    {
        let mut w: [u32; 20] = [0; 20];
        let mut i: usize = 0;
        while i < 8
            invariant
                i <= 8,
                forall|j: int|
                    0 <= j < i ==> w@[j] == self.challenge@[j] && w@[8 + j] == self.difficulty@[j],
            decreases 8 - i,
        {
            w[i] = self.challenge[i];
            w[8 + i] = self.difficulty[i];
            i = i + 1;
        }
        w[16] = self.nonce_base_lo;
        w[17] = self.nonce_base_hi;
        w[18] = self.pad0;
        w[19] = self.pad1;
        assert(w@ =~= self.words()) by {
            assert forall|j: int| 0 <= j < 20 implies w@[j] == self.words()[j] by {
                if 8 <= j < 16 {
                    assert(w@[8 + (j - 8)] == self.difficulty@[j - 8]);
                }
            }
        }
        assert forall|i: int| 8 <= i < 16 implies #[trigger] w@[i] == self.difficulty@[i - 8] by {
            assert(w@[8 + (i - 8)] == self.difficulty@[i - 8]);
        }
        w
    }

    /// The buffer as it is written to the device.
    pub fn to_bytes(&self) -> (bytes: Vec<u8>)
        ensures
            machine_bytes(self.words(), bytes@),
            bytes@.len() == UNIFORMS_BYTES,
            ({
                ||| {
                    &&& forall|i: int|
                        0 <= i < 8 ==> le_nat(#[trigger] quad(bytes@, i)) == self.challenge@[i]
                    &&& forall|i: int|
                        8 <= i < 16 ==> le_nat(#[trigger] quad(bytes@, i)) == self.difficulty@[i
                            - 8]
                    &&& le_nat(quad(bytes@, 16)) == self.nonce_base_lo
                    &&& le_nat(quad(bytes@, 17)) == self.nonce_base_hi
                }
                ||| {
                    &&& forall|i: int|
                        0 <= i < 8 ==> be_nat(#[trigger] quad(bytes@, i)) == self.challenge@[i]
                    &&& forall|i: int|
                        8 <= i < 16 ==> be_nat(#[trigger] quad(bytes@, i)) == self.difficulty@[i
                            - 8]
                    &&& be_nat(quad(bytes@, 16)) == self.nonce_base_lo
                    &&& be_nat(quad(bytes@, 17)) == self.nonce_base_hi
                }
            }),
    {
        let w: [u32; 20] = self.to_words();
        words_to_bytes(&w)
    }
}

impl ResultBuffer {
    /// The words of the buffer, in order.
    pub open spec fn words(self) -> Seq<u32> {
        seq![self.found, self.nonce_lo, self.nonce_hi, self.pad] + self.hash@
    }

    /// The buffer that holds the given words, in order.
    pub fn from_words(w: &[u32; 12]) -> (r: ResultBuffer)
        ensures
            r.words() == w@,
            r.found == w@[0],
            r.nonce_lo == w@[1],
            r.nonce_hi == w@[2],
            r.pad == w@[3],
            forall|i: int| 0 <= i < 8 ==> #[trigger] r.hash@[i] == w@[4 + i],
    {
        let hash: [u32; 8] = [w[4], w[5], w[6], w[7], w[8], w[9], w[10], w[11]];
        let r: ResultBuffer = ResultBuffer {
            found: w[0],
            nonce_lo: w[1],
            nonce_hi: w[2],
            pad: w[3],
            hash,
        };
        assert(r.words() =~= w@);
        r
    }

    /// The words of the buffer, in order.
    pub fn to_words(&self) -> (w: [u32; 12])
        ensures
            w@ == self.words(),
            w@[0] == self.found,
            w@[1] == self.nonce_lo,
            w@[2] == self.nonce_hi,
            w@[3] == self.pad,
            forall|i: int| 0 <= i < 8 ==> #[trigger] self.hash@[i] == w@[4 + i],
    {
        let h: [u32; 8] = self.hash;
        let w: [u32; 12] = [
            self.found,
            self.nonce_lo,
            self.nonce_hi,
            self.pad,
            h[0],
            h[1],
            h[2],
            h[3],
            h[4],
            h[5],
            h[6],
            h[7],
        ];
        assert(w@ =~= self.words());
        w
    }

    /// The buffer as it is written to the device.
    pub fn to_bytes(&self) -> (bytes: Vec<u8>)
        ensures
            machine_bytes(self.words(), bytes@),
            bytes@.len() == RESULT_BYTES,
    {
        words_to_bytes(&self.to_words())
    }

    /// The buffer as it was read from the device.
    pub fn from_bytes(bytes: &[u8]) -> (r: ResultBuffer)
        requires
            bytes@.len() == RESULT_BYTES,
        ensures
            machine_bytes(r.words(), bytes@),
            ({
                ||| {
                    &&& r.found == le_nat(quad(bytes@, 0))
                    &&& r.nonce_lo == le_nat(quad(bytes@, 1))
                    &&& r.nonce_hi == le_nat(quad(bytes@, 2))
                    &&& forall|i: int|
                        0 <= i < 8 ==> #[trigger] r.hash@[i] == le_nat(quad(bytes@, 4 + i))
                }
                ||| {
                    &&& r.found == be_nat(quad(bytes@, 0))
                    &&& r.nonce_lo == be_nat(quad(bytes@, 1))
                    &&& r.nonce_hi == be_nat(quad(bytes@, 2))
                    &&& forall|i: int|
                        0 <= i < 8 ==> #[trigger] r.hash@[i] == be_nat(quad(bytes@, 4 + i))
                }
            }),
    {
        Self::from_words(&words_from_bytes(bytes))
    }
}

/// What the device reads of a dispatch, word by word: the bytes of the challenge
/// in groups of four, the lowest first, then those of the difficulty, the highest
/// first, then the two halves of the first nonce.
pub proof fn law_dispatch_reaches_the_device(
    u: Uniforms,
    challenge: Seq<u8>,
    difficulty: Seq<u8>,
    nonce_base: u64,
)
    requires
        challenge.len() == 32,
        difficulty.len() == 32,
        uniforms_hold(u, challenge, difficulty, nonce_base),
    ensures
        u.words().len() == 20,
        forall|i: int|
            0 <= i < 8 ==> #[trigger] u.words()[i] == challenge[4 * i] + 0x100 * challenge[4 * i
                + 1] + 0x1_0000 * challenge[4 * i + 2] + 0x100_0000 * challenge[4 * i + 3],
        forall|i: int|
            0 <= i < 8 ==> #[trigger] u.words()[8 + i] == 0x100_0000 * difficulty[4 * i] + 0x1_0000
                * difficulty[4 * i + 1] + 0x100 * difficulty[4 * i + 2] + difficulty[4 * i + 3],
        forall|i: int|
            0 <= i < 8 ==> #[trigger] u.challenge@[i] == challenge[4 * i] + 0x100 * challenge[4 * i
                + 1] + 0x1_0000 * challenge[4 * i + 2] + 0x100_0000 * challenge[4 * i + 3],
        forall|i: int|
            0 <= i < 8 ==> #[trigger] u.difficulty@[i] == 0x100_0000 * difficulty[4 * i] + 0x1_0000
                * difficulty[4 * i + 1] + 0x100 * difficulty[4 * i + 2] + difficulty[4 * i + 3],
        u.words()[16] + 0x1_0000_0000 * u.words()[17] == nonce_base,
        u.nonce_base_lo + 0x1_0000_0000 * u.nonce_base_hi == nonce_base,
        u.words()[18] == 0,
        u.words()[19] == 0,
{
    assert forall|i: int| 0 <= i < 8 implies #[trigger] u.challenge@[i] == challenge[4 * i] + 0x100
        * challenge[4 * i + 1] + 0x1_0000 * challenge[4 * i + 2] + 0x100_0000 * challenge[4 * i
        + 3] by {
        assert(u.challenge@[i] == le_nat(quad(challenge, i)));
        lemma_quad(quad(challenge, i));
    }
    assert forall|i: int| 0 <= i < 8 implies #[trigger] u.difficulty@[i] == 0x100_0000
        * difficulty[4 * i] + 0x1_0000 * difficulty[4 * i + 1] + 0x100 * difficulty[4 * i + 2]
        + difficulty[4 * i + 3] by {
        assert(u.difficulty@[i] == be_nat(quad(difficulty, i)));
        lemma_quad(quad(difficulty, i));
    }
    assert forall|i: int| 0 <= i < 8 implies #[trigger] u.words()[i] == u.challenge@[i] by {}
    assert forall|i: int| 0 <= i < 8 implies #[trigger] u.words()[8 + i] == u.difficulty@[i] by {}
}

/// What a hit says of the buffer that the device left, word by word: the nonce
/// stands in the second word and, its upper half, in the third; the hash stands
/// from the fifth on, its bytes in groups of four, the highest first.
pub proof fn law_hit_is_read_from_the_device(r: ResultBuffer, hit: MineHit)
    requires
        reports(r, hit),
    ensures
        r.words().len() == 12,
        r.words()[0] == r.found,
        hit.nonce == r.words()[1] + 0x1_0000_0000 * r.words()[2],
        hit.nonce == r.nonce_lo + 0x1_0000_0000 * r.nonce_hi,
        forall|i: int|
            0 <= i < 8 ==> #[trigger] r.words()[4 + i] == 0x100_0000 * hit.hash_be@[4 * i]
                + 0x1_0000 * hit.hash_be@[4 * i + 1] + 0x100 * hit.hash_be@[4 * i + 2]
                + hit.hash_be@[4 * i + 3],
        forall|i: int|
            0 <= i < 8 ==> #[trigger] r.hash@[i] == 0x100_0000 * hit.hash_be@[4 * i] + 0x1_0000
                * hit.hash_be@[4 * i + 1] + 0x100 * hit.hash_be@[4 * i + 2] + hit.hash_be@[4 * i
                + 3],
{
    assert forall|i: int| 0 <= i < 8 implies #[trigger] r.hash@[i] == 0x100_0000 * hit.hash_be@[4
        * i] + 0x1_0000 * hit.hash_be@[4 * i + 1] + 0x100 * hit.hash_be@[4 * i + 2]
        + hit.hash_be@[4 * i + 3] by {
        assert(be_nat(quad(hit.hash_be@, i)) == r.hash@[i]);
        lemma_quad(quad(hit.hash_be@, i));
    }
    assert forall|i: int| 0 <= i < 8 implies #[trigger] r.words()[4 + i] == r.hash@[i] by {}
}

} // verus!
