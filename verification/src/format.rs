//! What is shown: short hashes, token amounts, the banner and the epoch.

use crate::account::address_text;
use crate::chain::{ChainCtx, EpochSnapshot};
use crate::config::short_url;
use crate::gpu::GpuMiner;
use crate::text::{contains, decimal_text, hex_encode, repeat, same_text, trim_end_zeros};
use crate::word::word_decimal;
use vstd::prelude::*;
use vstd::string::*;

verus! {

use crate::account::checksummed;
use crate::bytes::be_nat;
use crate::config::without_scheme;
use crate::text::{decimal, decimal_value, hex_of, law_parts_of_text, occurs, repeated, trim_zeros};

/// Bytes as they are shown: all of their hexadecimal digits where there are
/// fewer than twelve, else the first eight and the last six.
pub open spec fn hex_short(bytes: Seq<u8>) -> Seq<char> {
    let h = hex_of(bytes);
    if h.len() < 12 {
        "0x"@ + h
    } else {
        "0x"@ + h.take(8) + "…"@ + h.skip(h.len() - 6)
    }
}

/// Bytes as they are shown.
pub fn format_hex_short(bytes: &[u8]) -> (t: String)
    ensures
        t@ == hex_short(bytes@),
{
    let h: String = hex_encode(bytes);
    let n: usize = h.as_str().unicode_len();
    let mut t: String = "0x".to_owned();
    if n < 12 {
        t.append(h.as_str());
    } else {
        t.append(h.as_str().substring_char(0, 8));
        t.append("…");
        t.append(h.as_str().substring_char(n - 6, n));
        assert(h@.subrange(0, 8) =~= h@.take(8));
        assert(h@.subrange(n - 6, n as int) =~= h@.skip(n - 6));
    }
    t
}

/// An amount of `10^18`ths as it is shown: as a decimal fraction, without zeros
/// at the end of the fraction, and without a point where nothing is left of it
/// (but with one where the amount is below one).
pub open spec fn hash_18(n: nat) -> Seq<char> {
    let s = decimal(n);
    if s.len() <= 18 {
        "0."@ + repeated("0"@, (18 - s.len()) as nat) + trim_zeros(s)
    } else {
        let whole = s.take(s.len() - 18);
        let fraction = trim_zeros(s.skip(s.len() - 18));
        if fraction.len() == 0 {
            whole
        } else {
            whole + "."@ + fraction
        }
    }
}

/// An amount as it is shown.
pub fn format_hash_18(amount: &[u8; 32]) -> (t: String)
    ensures
        t@ == hash_18(be_nat(amount@)),
{
    let s: String = word_decimal(amount);
    let n: usize = s.as_str().unicode_len();
    if n <= 18 {
        let mut t: String = "0.".to_owned();
        t.append(repeat("0", 18 - n).as_str());
        t.append(trim_end_zeros(s.as_str()).as_str());
        t
    } else {
        let whole = s.as_str().substring_char(0, n - 18);
        let rest = s.as_str().substring_char(n - 18, n);
        assert(whole@ =~= s@.take(n - 18));
        assert(rest@ =~= s@.skip(n - 18));
        let fraction: String = trim_end_zeros(rest);
        if fraction.as_str().is_empty() {
            whole.to_owned()
        } else {
            let mut t: String = whole.to_owned();
            t.append(".");
            t.append(fraction.as_str());
            t
        }
    }
}

/// `10^n`.
pub open spec fn pow10(n: nat) -> nat
    decreases n,
{
    if n == 0 {
        1
    } else {
        10 * pow10((n - 1) as nat)
    }
}

/// Whether all characters are decimal digits.
pub open spec fn all_digits(s: Seq<char>) -> bool {
    forall|i: int| 0 <= i < s.len() ==> 48 <= (#[trigger] s[i]) as int <= 57
}

/// A numeral is made of digits and stands for its number.
pub proof fn lemma_decimal(n: nat)
    ensures
        decimal(n).len() > 0,
        all_digits(decimal(n)),
        decimal_value(decimal(n)) == n,
    decreases n,
{
    reveal_with_fuel(decimal_value, 2);
    if n < 10 {
        assert(decimal(n).drop_last() =~= Seq::<char>::empty());
    } else {
        lemma_decimal(n / 10);
        assert(decimal(n).drop_last() =~= decimal(n / 10));
    }
}

/// The number of a concatenation of digits.
proof fn lemma_decimal_concat(a: Seq<char>, b: Seq<char>)
    requires
        all_digits(b),
    ensures
        decimal_value(a + b) == decimal_value(a) * pow10(b.len()) + decimal_value(b),
    decreases b.len(),
{
    if b.len() == 0 {
        assert(a + b =~= a);
        assert(decimal_value(a) * 1 == decimal_value(a));
    } else {
        let c = b.drop_last();
        assert(all_digits(c));
        lemma_decimal_concat(a, c);
        assert((a + b).drop_last() =~= a + c);
        assert((a + b).last() == b.last());
        assert(48 <= b[b.len() - 1] as int <= 57);
        let (v, w, p) = (decimal_value(a), decimal_value(c), pow10(c.len()));
        assert((v * p + w) * 10 == v * (10 * p) + w * 10) by (nonlinear_arith);
        assert(pow10(b.len()) == 10 * p);
    }
}

/// Zeros at the end count as powers of ten.
proof fn lemma_trim_zeros(s: Seq<char>)
    requires
        all_digits(s),
    ensures
        trim_zeros(s).len() <= s.len(),
        all_digits(trim_zeros(s)),
        decimal_value(s) == decimal_value(trim_zeros(s)) * pow10(
            (s.len() - trim_zeros(s).len()) as nat,
        ),
        trim_zeros(s).len() > 0 ==> trim_zeros(s).last() != '0',
    decreases s.len(),
{
    if s.len() > 0 && s.last() == '0' {
        let c = s.drop_last();
        assert(all_digits(c));
        lemma_trim_zeros(c);
        let k = (c.len() - trim_zeros(c).len()) as nat;
        let v = decimal_value(trim_zeros(c));
        assert(v * pow10(k) * 10 == v * (10 * pow10(k))) by (nonlinear_arith);
        assert(pow10(k + 1) == 10 * pow10(k));
    } else {
        assert(decimal_value(s) * 1 == decimal_value(s));
    }
}

/// Zeros before digits count for nothing.
proof fn lemma_zeros_first(n: nat, s: Seq<char>)
    requires
        all_digits(s),
    ensures
        repeated("0"@, n).len() == n,
        all_digits(repeated("0"@, n) + s),
        decimal_value(repeated("0"@, n) + s) == decimal_value(s),
    decreases n,
{
    reveal_strlit("0");
    if n == 0 {
        assert(repeated("0"@, n) + s =~= s);
    } else {
        let z = repeated("0"@, (n - 1) as nat);
        lemma_zeros_first((n - 1) as nat, Seq::empty());
        assert(z + Seq::<char>::empty() =~= z);
        assert(repeated("0"@, n) =~= z.push('0'));
        assert(repeated("0"@, n).drop_last() =~= z);
        assert(decimal_value(repeated("0"@, n)) == 0);
        assert(all_digits(z));
        lemma_decimal_concat(repeated("0"@, n), s);
        assert(0 * pow10(s.len()) == 0);
    }
}

/// An amount is shown without loss: the digits before the point and those after
/// it stand for the whole amount, and at most eighteen come after it. The digits
/// before the point are a single zero where the amount is below one, and those
/// after it do not end in a zero, unless the amount is zero.
pub proof fn law_hash_18_is_exact(n: nat) -> (parts: (Seq<char>, Seq<char>))
    ensures
        all_digits(parts.0),
        all_digits(parts.1),
        parts.0.len() > 0,
        parts.1.len() <= 18,
        hash_18(n) == if parts.1.len() == 0 && n >= pow10(18) {
            parts.0
        } else {
            parts.0 + "."@ + parts.1
        },
        decimal_value(parts.0) * pow10(18) + decimal_value(parts.1) * pow10(
            (18 - parts.1.len()) as nat,
        ) == n,
        n < pow10(18) ==> parts.0 == seq!['0'],
        n > 0 && parts.1.len() > 0 ==> parts.1.last() != '0',
{
    let s = decimal(n);
    lemma_decimal(n);
    lemma_trim_zeros(s);
    reveal_strlit("0.");
    reveal_strlit(".");
    lemma_decimal_size(s);
    if s.len() <= 18 {
        let t = trim_zeros(s);
        let k = (18 - s.len()) as nat;
        lemma_zeros_first(k, t);
        let f = repeated("0"@, k) + t;
        let w = seq!['0'];
        reveal_with_fuel(decimal_value, 2);
        assert(w.drop_last() =~= Seq::<char>::empty());
        assert(decimal_value(w) == 0);
        assert(hash_18(n) =~= w + "."@ + f);
        assert(0 * pow10(18) == 0);
        lemma_pow10_rises(s.len(), 18);
        (w, f)
    } else {
        let m = s.len() - 18;
        let (w, r) = (s.take(m), s.skip(m));
        assert(w + r =~= s);
        assert(all_digits(r)) by {
            assert forall|i: int| 0 <= i < r.len() implies 48 <= (#[trigger] r[i]) as int <= 57 by {
                assert(r[i] == s[i + m]);
            }
        }
        lemma_decimal_concat(w, r);
        lemma_trim_zeros(r);
        lemma_decimal_first(n);
        lemma_decimal_at_least(w, r);
        (w, trim_zeros(r))
    }
}

/// Digits of a given number stand for less than that power of ten.
proof fn lemma_decimal_size(s: Seq<char>)
    requires
        all_digits(s),
    ensures
        decimal_value(s) < pow10(s.len()),
    decreases s.len(),
{
    if s.len() > 0 {
        assert(all_digits(s.drop_last()));
        lemma_decimal_size(s.drop_last());
        assert(48 <= s[s.len() - 1] as int <= 57);
    }
}

/// Powers of ten rise.
proof fn lemma_pow10_rises(a: nat, b: nat)
    requires
        a <= b,
    ensures
        0 < pow10(a) <= pow10(b),
    decreases b,
{
    if a < b {
        lemma_pow10_rises(a, (b - 1) as nat);
    } else if a > 0 {
        lemma_pow10_rises((a - 1) as nat, (a - 1) as nat);
    }
}

/// A numeral of more than one digit begins with one above zero.
proof fn lemma_decimal_first(n: nat)
    ensures
        n > 0 ==> decimal(n)[0] as int > 48,
    decreases n,
{
    if n >= 10 {
        lemma_decimal_first(n / 10);
        lemma_decimal(n / 10);
    }
}

/// A numeral of nineteen digits or more stands for at least `10^18`.
proof fn lemma_decimal_at_least(w: Seq<char>, r: Seq<char>)
    requires
        w.len() > 0,
        r.len() == 18,
        all_digits(w + r),
        decimal_value(w + r) == decimal_value(w) * pow10(18) + decimal_value(r),
        decimal_value(w + r) > 0 ==> w[0] as int > 48,
        w.len() > 0 ==> w + r == decimal(decimal_value(w + r)),
    ensures
        decimal_value(w + r) >= pow10(18),
{
    let n = decimal_value(w + r);
    if n == 0 {
        assert(decimal(0).len() == 1);
        assert((w + r).len() > 1);
    }
    let first = w.take(1);
    let rest = w.skip(1);
    assert(first + rest =~= w);
    assert forall|i: int| 0 <= i < rest.len() implies 48 <= (#[trigger] rest[i]) as int <= 57 by {
        assert(rest[i] == (w + r)[i + 1]);
    }
    lemma_decimal_concat(first, rest);
    reveal_with_fuel(decimal_value, 2);
    assert(first.drop_last() =~= Seq::<char>::empty());
    assert(48 <= (w + r)[0] as int <= 57);
    assert(decimal_value(first) >= 1);
    lemma_pow10_rises(0, rest.len());
    let (a, p, q) = (decimal_value(first), pow10(rest.len()), pow10(18));
    assert(a * p >= 1) by (nonlinear_arith)
        requires
            a >= 1,
            p >= 1,
    ;
    let v = decimal_value(w);
    assert(v * q >= q) by (nonlinear_arith)
        requires
            v >= 1,
    ;
}

/// Whether transactions sent there are kept out of the public mempool.
pub open spec fn is_private(url: Seq<char>) -> bool {
    occurs("flashbots"@, url) || occurs("mevblocker"@, url)
}

/// Whether transactions sent there are kept out of the public mempool.
pub fn is_private_mempool(url: &str) -> (r: bool)
    ensures
        r == is_private(url@),
{
    contains(url, "flashbots") || contains(url, "mevblocker")
}

/// The settings that the banner shows, numbers that are not whole as text.
pub struct BannerSettings {
    pub batch_size: u64,
    pub pipeline_depth: u32,
    pub tip_mode: String,
    pub tip_percentile: String,
    pub tip_floor: String,
    pub profit_ratio: String,
}

/// A text between two others.
fn framed(before: &str, middle: &str, after: &str) -> (t: String)
    ensures
        t@ == before@ + middle@ + after@,
{
    let mut t: String = before.to_owned();
    t.append(middle);
    t.append(after);
    t
}

/// The line of the banner on the priority fee.
pub open spec fn tip_line(s: BannerSettings) -> Seq<char> {
    if s.tip_mode@ == "market"@ {
        "│ 优先费    market 跟随 (取 "@ + s.tip_percentile@ + "% 分位, 下限 "@ + s.tip_floor@
            + " gwei)"@
    } else {
        "│ 优先费    固定 (fallback)"@
    }
}

/// The lines of the banner.
pub open spec fn banner_lines(ctx: ChainCtx, gpu: GpuMiner, s: BannerSettings) -> Seq<Seq<char>> {
    let bar = repeated("─"@, 58);
    seq![
        "┌─ hash-miner v0.1.0 "@ + bar,
        "│ 矿工地址  "@ + checksummed(ctx.miner@),
        "│ 合约地址  "@ + checksummed(ctx.contract@),
        "│ 读取 RPC  "@ + without_scheme(ctx.read_rpc@),
        "│ 提交 RPC  "@ + without_scheme(ctx.submit_rpc@) + if is_private(ctx.submit_rpc@) {
            " (私有 mempool)"@
        } else {
            ""@
        },
        "│ GPU       "@ + gpu.adapter_name@ + " · "@ + gpu.backend@,
        "│ 批量      "@ + decimal(s.batch_size as nat) + " nonce · pipeline="@ + decimal(
            s.pipeline_depth as nat,
        ),
        tip_line(s),
        "│ 经济护栏  gas/reward 比 ≥ "@ + s.profit_ratio@ + " 时跳过 (持续挖, 不发 tx)"@,
        "└"@ + bar + repeated("─"@, 20),
        ""@,
    ]
}

/// The lines of the banner.
pub fn print_banner(ctx: &ChainCtx, gpu: &GpuMiner, s: &BannerSettings) -> (lines: Vec<String>)
    ensures
        lines@.map_values(|l: String| l@) == banner_lines(*ctx, *gpu, *s),
{
    let bar: String = repeat("─", 58);
    let mut lines: Vec<String> = Vec::new();
    lines.push(framed("┌─ hash-miner v0.1.0 ", bar.as_str(), ""));
    lines.push(framed("│ 矿工地址  ", address_text(&ctx.miner).as_str(), ""));
    lines.push(framed("│ 合约地址  ", address_text(&ctx.contract).as_str(), ""));
    lines.push(framed("│ 读取 RPC  ", short_url(ctx.read_rpc.as_str()).as_str(), ""));
    lines.push(
        framed(
            "│ 提交 RPC  ",
            short_url(ctx.submit_rpc.as_str()).as_str(),
            if is_private_mempool(ctx.submit_rpc.as_str()) {
                " (私有 mempool)"
            } else {
                ""
            },
        ),
    );
    let mut device: String = framed("│ GPU       ", gpu.adapter_name.as_str(), " · ");
    device.append(gpu.backend.as_str());
    lines.push(device);
    let mut batch: String = framed(
        "│ 批量      ",
        decimal_text(s.batch_size).as_str(),
        " nonce · pipeline=",
    );
    batch.append(decimal_text(s.pipeline_depth as u64).as_str());
    lines.push(batch);
    if same_text(s.tip_mode.as_str(), "market") {
        let mut tip: String = framed(
            "│ 优先费    market 跟随 (取 ",
            s.tip_percentile.as_str(),
            "% 分位, 下限 ",
        );
        tip.append(s.tip_floor.as_str());
        tip.append(" gwei)");
        lines.push(tip);
    } else {
        lines.push("│ 优先费    固定 (fallback)".to_owned());
    }
    lines.push(
        framed(
            "│ 经济护栏  gas/reward 比 ≥ ",
            s.profit_ratio.as_str(),
            " 时跳过 (持续挖, 不发 tx)",
        ),
    );
    lines.push(framed("└", bar.as_str(), repeat("─", 20).as_str()));
    lines.push("".to_owned());
    proof {
        reveal_strlit("");
        let shown = lines@.map_values(|l: String| l@);
        let wanted = banner_lines(*ctx, *gpu, *s);
        assert(shown.len() == wanted.len());
        assert(shown[0] =~= wanted[0]);
        assert(shown[1] =~= wanted[1]);
        assert(shown[2] =~= wanted[2]);
        assert(shown[3] =~= wanted[3]);
        assert(shown[4] =~= wanted[4]);
        assert(shown[5] =~= wanted[5]);
        assert(shown[6] =~= wanted[6]);
        assert(shown[7] =~= wanted[7]);
        assert(shown[8] =~= wanted[8]);
        assert(shown[9] =~= wanted[9]);
        assert(shown[10] =~= wanted[10]);
        assert(shown =~= wanted);
    }
    lines
}

/// The lines on an epoch.
pub open spec fn snapshot_lines(s: EpochSnapshot) -> Seq<Seq<char>> {
    seq![
        "[链上] 挑战 "@ + hex_short(s.challenge@),
        "[链上] 难度 "@ + hex_short(s.difficulty@),
        "[链上] 单次奖励 "@ + hash_18(be_nat(s.reward@)) + " HASH · 本纪元剩余 "@ + decimal(
            be_nat(s.blocks_left@),
        ) + " 块"@,
    ]
}

/// The lines on an epoch.
pub fn print_snapshot(s: &EpochSnapshot) -> (lines: Vec<String>)
    ensures
        lines@.map_values(|l: String| l@) == snapshot_lines(*s),
{
    let mut lines: Vec<String> = Vec::new();
    lines.push(framed("[链上] 挑战 ", format_hex_short(&s.challenge).as_str(), ""));
    lines.push(framed("[链上] 难度 ", format_hex_short(&s.difficulty).as_str(), ""));
    let mut reward: String = framed(
        "[链上] 单次奖励 ",
        format_hash_18(&s.reward).as_str(),
        " HASH · 本纪元剩余 ",
    );
    reward.append(word_decimal(&s.blocks_left).as_str());
    reward.append(" 块");
    lines.push(reward);
    proof {
        reveal_strlit("");
        let shown = lines@.map_values(|l: String| l@);
        let wanted = snapshot_lines(*s);
        assert(shown[0] =~= wanted[0]);
        assert(shown[1] =~= wanted[1]);
        assert(shown[2] =~= wanted[2]);
        assert(shown =~= wanted);
    }
    lines
}

/// A numeral has digits only, none of them a zero at its front unless it is all
/// there is, and stands for its number; a digit behind others counts once, and
/// they ten times as much.
pub proof fn law_numerals(n: nat, s: Seq<char>, d: nat)
    ensures
        decimal(n).len() > 0,
        all_digits(decimal(n)),
        decimal_value(decimal(n)) == n,
        n > 0 ==> decimal(n)[0] != '0',
        decimal(0) == seq!['0'],
        decimal_value(Seq::<char>::empty()) == 0,
        d < 10 ==> decimal_value(s.push((48 + d) as char)) == 10 * decimal_value(s) + d,
{
    lemma_decimal(n);
    lemma_decimal_first(n);
    assert(s.push((48 + d) as char).drop_last() =~= s);
}

/// Up to five bytes are shown whole, more by their first four and their last
/// three.
pub proof fn law_shortened_bytes(bytes: Seq<u8>)
    ensures
        bytes.len() < 6 ==> hex_short(bytes) == "0x"@ + hex_of(bytes),
        bytes.len() >= 6 ==> hex_short(bytes) == "0x"@ + hex_of(bytes.take(4)) + "…"@ + hex_of(
            bytes.skip(bytes.len() - 3),
        ),
{
    let h = hex_of(bytes);
    if bytes.len() >= 6 {
        let (a, b) = (bytes.take(4), bytes.skip(bytes.len() - 3));
        assert(h.take(8) =~= hex_of(a));
        assert forall|i: int| 0 <= i < 6 implies h.skip(h.len() - 6)[i] == hex_of(b)[i] by {
            let j = h.len() - 6 + i;
            assert(j % 2 == i % 2);
            assert(j / 2 == bytes.len() - 3 + i / 2);
        }
        assert(h.skip(h.len() - 6) =~= hex_of(b));
    }
}

/// Transactions are kept out of the public mempool where one of the two names
/// stands somewhere in the URL.
pub proof fn law_private_mempools(url: Seq<char>)
    ensures
        is_private(url) <==> (exists|before: Seq<char>, after: Seq<char>|
            url == #[trigger] (before + "flashbots"@ + after)) || (exists|
            before: Seq<char>,
            after: Seq<char>,
        |
            url == #[trigger] (before + "mevblocker"@ + after)),
{
    law_parts_of_text(url, "flashbots"@);
    law_parts_of_text(url, "mevblocker"@);
}

/// The banner names the accounts, where transactions are read and sent, the
/// device, the batch and the limits as they are.
pub proof fn law_banner_shows_what_runs(ctx: ChainCtx, gpu: GpuMiner, s: BannerSettings)
    ensures
        banner_lines(ctx, gpu, s).len() == 11,
        banner_lines(ctx, gpu, s)[1] == "│ 矿工地址  "@ + checksummed(ctx.miner@),
        banner_lines(ctx, gpu, s)[2] == "│ 合约地址  "@ + checksummed(ctx.contract@),
        banner_lines(ctx, gpu, s)[3] == "│ 读取 RPC  "@ + without_scheme(ctx.read_rpc@),
        banner_lines(ctx, gpu, s)[4] == "│ 提交 RPC  "@ + without_scheme(ctx.submit_rpc@) + (
        if is_private(ctx.submit_rpc@) {
            " (私有 mempool)"@
        } else {
            ""@
        }),
        banner_lines(ctx, gpu, s)[5] == "│ GPU       "@ + gpu.adapter_name@ + " · "@ + gpu.backend@,
        banner_lines(ctx, gpu, s)[6] == "│ 批量      "@ + decimal(s.batch_size as nat)
            + " nonce · pipeline="@ + decimal(s.pipeline_depth as nat),
        s.tip_mode@ == "market"@ ==> banner_lines(ctx, gpu, s)[7] == "│ 优先费    market 跟随 (取 "@
            + s.tip_percentile@ + "% 分位, 下限 "@ + s.tip_floor@ + " gwei)"@,
        s.tip_mode@ != "market"@ ==> banner_lines(ctx, gpu, s)[7] == "│ 优先费    固定 (fallback)"@,
        banner_lines(ctx, gpu, s)[8] == "│ 经济护栏  gas/reward 比 ≥ "@ + s.profit_ratio@
            + " 时跳过 (持续挖, 不发 tx)"@,
{
}

/// The lines on an epoch show its challenge, its difficulty, its reward and the
/// blocks it has left.
pub proof fn law_epoch_is_shown(s: EpochSnapshot)
    ensures
        snapshot_lines(s).len() == 3,
        snapshot_lines(s)[0] == "[链上] 挑战 "@ + hex_short(s.challenge@),
        snapshot_lines(s)[1] == "[链上] 难度 "@ + hex_short(s.difficulty@),
        snapshot_lines(s)[2] == "[链上] 单次奖励 "@ + hash_18(be_nat(s.reward@))
            + " HASH · 本纪元剩余 "@ + decimal(be_nat(s.blocks_left@)) + " 块"@,
{
}

} // verus!
