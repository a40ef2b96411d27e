//! Where a segment's files live: `<base>/<id>.data` and
//! `<base>/<id>.checksum`, with the id in decimal.

use vstd::prelude::*;

verus! {

/// The ASCII decimal digits of `n`, most significant first.
pub open spec fn decimal(n: nat) -> Seq<u8>
    decreases n,
{
    if n < 10 {
        seq![(48 + n) as u8]
    } else {
        decimal(n / 10).push((48 + n % 10) as u8)
    }
}

/// `.data`
pub open spec fn data_suffix() -> Seq<u8> {
    seq![46u8, 100u8, 97u8, 116u8, 97u8]
}

/// `.checksum`
pub open spec fn checksum_suffix() -> Seq<u8> {
    seq![46u8, 99u8, 104u8, 101u8, 99u8, 107u8, 115u8, 117u8, 109u8]
}

/// The path of segment `id`'s file with the given suffix under `base`.
pub open spec fn segment_path(base: Seq<u8>, id: u64, suffix: Seq<u8>) -> Seq<u8> {
    base + seq![47u8] + decimal(id as nat) + suffix
}

fn push_decimal(out: &mut Vec<u8>, n: u64)
    ensures
        final(out)@ == old(out)@ + decimal(n as nat),
    decreases n,
{
    if n >= 10 {
        push_decimal(out, n / 10);
    }
    out.push(48u8 + (n % 10) as u8);
    assert(out@ =~= old(out)@ + decimal(n as nat));
}

fn push_all(out: &mut Vec<u8>, bytes: &[u8])
    ensures
        final(out)@ == old(out)@ + bytes@,
{
    let mut i: usize = 0;
    while i < bytes.len()
        invariant
            i <= bytes@.len(),
            out@ == old(out)@ + bytes@.subrange(0, i as int),
        decreases bytes@.len() - i,
    {
        out.push(bytes[i]);
        i = i + 1;
        assert(out@ =~= old(out)@ + bytes@.subrange(0, i as int));
    }
    assert(bytes@.subrange(0, i as int) =~= bytes@);
}

/// The paths of segment `id`'s data file and checksum file under `base`.
pub fn path_of(base: &[u8], id: u64) -> (r: (Vec<u8>, Vec<u8>))
    ensures
        r.0@ == segment_path(base@, id, data_suffix()),
        r.1@ == segment_path(base@, id, checksum_suffix()),
{
    let mut stem: Vec<u8> = Vec::new();
    push_all(&mut stem, base);
    stem.push(47u8);
    push_decimal(&mut stem, id);
    let mut data: Vec<u8> = Vec::new();
    push_all(&mut data, stem.as_slice());
    let mut checksum = stem;
    let data_ext: [u8; 5] = [46u8, 100u8, 97u8, 116u8, 97u8];
    let checksum_ext: [u8; 9] = [46u8, 99u8, 104u8, 101u8, 99u8, 107u8, 115u8, 117u8, 109u8];
    push_all(&mut data, data_ext.as_slice());
    push_all(&mut checksum, checksum_ext.as_slice());
    assert(data_ext@ =~= data_suffix());
    assert(checksum_ext@ =~= checksum_suffix());
    assert(data@ =~= segment_path(base@, id, data_suffix()));
    assert(checksum@ =~= segment_path(base@, id, checksum_suffix()));
    (data, checksum)
}

proof fn lemma_decimal_nonempty(n: nat)
    ensures
        decimal(n).len() >= 1,
    decreases n,
{
    if n >= 10 {
        lemma_decimal_nonempty(n / 10);
    }
}

/// Different numbers have different decimal digits.
proof fn lemma_decimal_injective(a: nat, b: nat)
    requires
        decimal(a) == decimal(b),
    ensures
        a == b,
    decreases a,
{
    if a >= 10 {
        lemma_decimal_nonempty(a / 10);
        assert(decimal(a) == decimal(a / 10).push((48 + a % 10) as u8));
    } else {
        assert(decimal(a) == seq![(48 + a) as u8]);
    }
    if b >= 10 {
        lemma_decimal_nonempty(b / 10);
        assert(decimal(b) == decimal(b / 10).push((48 + b % 10) as u8));
    } else {
        assert(decimal(b) == seq![(48 + b) as u8]);
    }
    if a < 10 && b < 10 {
        assert(decimal(a)[0] == decimal(b)[0]);
        assert(((48 + a) as u8) as int == 48 + a);
        assert(((48 + b) as u8) as int == 48 + b);
        assert(decimal(a)[0] == (48 + a) as u8);
        assert(a == b);
    } else if a >= 10 && b >= 10 {
        let da = decimal(a / 10).push((48 + a % 10) as u8);
        let db = decimal(b / 10).push((48 + b % 10) as u8);
        assert(da[da.len() - 1] == (48 + a % 10) as u8);
        assert(db[db.len() - 1] == (48 + b % 10) as u8);
        assert(da.len() == db.len());
        assert(da[da.len() - 1] == db[db.len() - 1]);
        assert(decimal(a).drop_last() =~= decimal(a / 10));
        assert(decimal(b).drop_last() =~= decimal(b / 10));
        lemma_decimal_injective(a / 10, b / 10);
        assert(((48 + a % 10) as u8) as int == 48 + a % 10);
        assert(((48 + b % 10) as u8) as int == 48 + b % 10);
        assert(a % 10 == b % 10);
        assert(a == b) by (nonlinear_arith)
            requires
                a / 10 == b / 10,
                a % 10 == b % 10,
        ;
        assert(a == b);
    } else {
        assert(decimal(a).len() != decimal(b).len());
    }
}

/// Distinct segments have distinct data files and distinct checksum files,
/// and no data file is a checksum file: a pool of `k` segments has `k`
/// separate file pairs.
pub proof fn lemma_distinct_files(base: Seq<u8>, a: u64, b: u64)
    ensures
        a != b ==> segment_path(base, a, data_suffix()) != segment_path(base, b, data_suffix()),
        a != b ==> segment_path(base, a, checksum_suffix()) != segment_path(
            base,
            b,
            checksum_suffix(),
        ),
        segment_path(base, a, data_suffix()) != segment_path(base, b, checksum_suffix()),
{
    let d = segment_path(base, a, data_suffix());
    let c = segment_path(base, b, checksum_suffix());
    assert(d.last() == 97u8);
    assert(c.last() == 109u8);
    if segment_path(base, a, data_suffix()) == segment_path(base, b, data_suffix()) {
        lemma_path_injective(base, a, b, data_suffix());
    }
    if segment_path(base, a, checksum_suffix()) == segment_path(base, b, checksum_suffix()) {
        lemma_path_injective(base, a, b, checksum_suffix());
    }
}

proof fn lemma_path_injective(base: Seq<u8>, a: u64, b: u64, suffix: Seq<u8>)
    requires
        segment_path(base, a, suffix) == segment_path(base, b, suffix),
    ensures
        a == b,
{
    let pa = segment_path(base, a, suffix);
    let pb = segment_path(base, b, suffix);
    let start: int = base.len() as int + 1;
    assert(pa.len() == base.len() + 1 + decimal(a as nat).len() + suffix.len());
    assert(pb.len() == base.len() + 1 + decimal(b as nat).len() + suffix.len());
    assert(decimal(a as nat).len() == decimal(b as nat).len());
    assert(pa.subrange(start, start + decimal(a as nat).len() as int) =~= decimal(a as nat));
    assert(pb.subrange(start, start + decimal(b as nat).len() as int) =~= decimal(b as nat));
    lemma_decimal_injective(a as nat, b as nat);
}

} // verus!
