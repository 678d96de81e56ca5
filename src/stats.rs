//! Query statistics derived from the chunks' byte counts and the elapsed time.
use vstd::prelude::*;

verus! {

/// Throughput in hundredths of a gigabyte per second, rounded half up:
/// `bytes / micros / 1000` GB/s is `bytes / (10 * micros)` hundredths.
pub open spec fn bandwidth_of(bytes: int, micros: int) -> int {
    (bytes + 5 * micros) / (10 * micros)
}

/// The throughput of scanning `input_size` bytes in `time_taken_us`
/// microseconds, in hundredths of GB/s; none when no time elapsed.
pub fn bandwidth_hundredths(input_size: u128, time_taken_us: u32) -> (r: Option<u128>)
    ensures
        r is None <==> time_taken_us == 0,
        r matches Some(v) ==> v == bandwidth_of(input_size as int, time_taken_us as int),
{
    if time_taken_us == 0 {
        return None;
    }
    let d: u128 = 10 * time_taken_us as u128;
    let q = input_size / d;
    let rem = input_size % d;
    let half: u128 = 5 * time_taken_us as u128;
    let up: u128 = if rem >= half {
        1
    } else {
        0
    };
    proof {
        let b = input_size as int;
        let t = time_taken_us as int;
        let dd = d as int;
        assert(b == (q as int) * dd + rem as int) by (nonlinear_arith)
            requires
                dd > 0,
                q as int == b / dd,
                rem as int == b % dd,
        ;
        assert((b + 5 * t) / dd == q as int + up as int) by (nonlinear_arith)
            requires
                dd == 10 * t,
                t > 0,
                b == (q as int) * dd + rem as int,
                0 <= rem < dd,
                up == (if rem >= 5 * t { 1int } else { 0int }),
        ;
    }
    assert(q <= input_size);
    assert(q + up <= u128::MAX) by {
        if up == 1 {
            assert(input_size >= q * d + half) by (nonlinear_arith)
                requires
                    input_size as int == (q as int) * (d as int) + rem as int,
                    rem >= half,
            ;
            assert(q * d >= q) by (nonlinear_arith)
                requires
                    d >= 1,
            ;
        }
    }
    Some(q + up)
}

/// The reported throughput is the exact `bytes / (10 * micros)` hundredths of
/// GB/s rounded to the nearest hundredth, halves rounding up.
pub proof fn lemma_bandwidth_rounded(bytes: int, micros: int)
    requires
        bytes >= 0,
        micros > 0,
    ensures
        bandwidth_of(bytes, micros) * 10 * micros <= bytes + 5 * micros,
        bytes + 5 * micros < (bandwidth_of(bytes, micros) + 1) * 10 * micros,
{
    let v = bandwidth_of(bytes, micros);
    let d = 10 * micros;
    assert(v * d <= bytes + 5 * micros < (v + 1) * d) by (nonlinear_arith)
        requires
            d > 0,
            v == (bytes + 5 * micros) / d,
    ;
    assert(v * d == v * 10 * micros) by (nonlinear_arith)
        requires
            d == 10 * micros,
    ;
    assert((v + 1) * d == (v + 1) * 10 * micros) by (nonlinear_arith)
        requires
            d == 10 * micros,
    ;
}

/// The ASCII digit of `d`.
pub open spec fn digit_byte(d: nat) -> u8 {
    (48 + d) as u8
}

/// The decimal digits of `n` in ASCII, without leading zeros.
pub open spec fn decimal(n: nat) -> Seq<u8>
    decreases n,
{
    if n < 10 {
        seq![digit_byte(n)]
    } else {
        decimal(n / 10).push(digit_byte(n % 10))
    }
}

/// The unit after a throughput figure: " GB/s".
pub open spec fn unit_suffix() -> Seq<u8> {
    seq![32u8, 71u8, 66u8, 47u8, 115u8]
}

/// The text of a throughput: whole GB/s, a point and two decimals, then the
/// unit; with no elapsed time, "NaN" for no bytes and "inf" otherwise.
pub open spec fn bandwidth_text_of(hundredths: Option<u128>, input_size: u128) -> Seq<u8> {
    match hundredths {
        Some(v) => decimal((v / 100) as nat) + seq![
            46u8,
            digit_byte(((v / 10) % 10) as nat),
            digit_byte((v % 10) as nat),
        ] + unit_suffix(),
        None => if input_size == 0 {
            seq![78u8, 97u8, 78u8] + unit_suffix()
        } else {
            seq![105u8, 110u8, 102u8] + unit_suffix()
        },
    }
}

/// The ASCII decimal digits of `n`.
pub fn decimal_bytes(n: u128) -> (r: Vec<u8>)
    ensures
        r@ == decimal(n as nat),
    decreases n,
{
    if n < 10 {
        let mut v: Vec<u8> = Vec::new();
        v.push(48 + n as u8);
        v
    } else {
        let mut v = decimal_bytes(n / 10);
        v.push(48 + (n % 10) as u8);
        v
    }
}

/// Appends `tail` to `out`.
fn append_bytes(out: &mut Vec<u8>, tail: &[u8])
    ensures
        final(out)@ == old(out)@ + tail@,
{
    let mut i: usize = 0;
    while i < tail.len()
        invariant
            i <= tail@.len(),
            out@ == old(out)@ + tail@.subrange(0, i as int),
        decreases tail@.len() - i,
    {
        out.push(tail[i]);
        i += 1;
        assert(out@ =~= old(out)@ + tail@.subrange(0, i as int));
    }
    assert(tail@.subrange(0, tail@.len() as int) =~= tail@);
}

/// The ASCII text of a throughput in hundredths of GB/s, as reported.
pub fn bandwidth_text(hundredths: Option<u128>, input_size: u128) -> (r: Vec<u8>)
    ensures
        r@ == bandwidth_text_of(hundredths, input_size),
{
    let suffix: [u8; 5] = [32, 71, 66, 47, 115];
    assert(suffix@ =~= unit_suffix());
    match hundredths {
        Some(v) => {
            let mut out = decimal_bytes(v / 100);
            let tail: [u8; 3] = [46, 48 + ((v / 10) % 10) as u8, 48 + (v % 10) as u8];
            append_bytes(&mut out, &tail);
            append_bytes(&mut out, &suffix);
            out
        },
        None => {
            let mut out: Vec<u8> = Vec::new();
            if input_size == 0 {
                let word: [u8; 3] = [78, 97, 78];
                append_bytes(&mut out, &word);
                assert(out@ =~= seq![78u8, 97u8, 78u8]);
            } else {
                let word: [u8; 3] = [105, 110, 102];
                append_bytes(&mut out, &word);
                assert(out@ =~= seq![105u8, 110u8, 102u8]);
            }
            append_bytes(&mut out, &suffix);
            out
        },
    }
}

} // verus!
