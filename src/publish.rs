use vstd::prelude::*;
use vstd::utf8::encode_utf8;

use crate::config::{Jitter, ProgramArgs};

verus! {

/// A batch is flushed as soon as it holds this many bytes or more.
pub const BATCH_PUBLISH_THRESHOLD_BYTES: usize = 786432;

/// The decimal digits of `n`, most significant first, as ASCII bytes.
pub open spec fn nat_digits(n: nat) -> Seq<u8>
    decreases n,
{
    if n < 10 {
        seq![(48 + n) as u8]
    } else {
        nat_digits(n / 10) + seq![(48 + n % 10) as u8]
    }
}

/// `i` written in decimal, with a `-` before a negative value.
pub open spec fn decimal(i: int) -> Seq<u8> {
    if i < 0 {
        seq![45u8] + nat_digits((-i) as nat)
    } else {
        nat_digits(i as nat)
    }
}

/// The line-protocol record of one window:
/// `jitter,host=<host>,cpu=<cpu> jitter=<latency> <ts>` and a line feed.
pub open spec fn record(host: Seq<u8>, cpu: u32, j: Jitter) -> Seq<u8> {
    encode_utf8("jitter,host="@) + host + encode_utf8(",cpu="@) + decimal(cpu as int)
        + encode_utf8(" jitter="@) + decimal(j.latency as int) + encode_utf8(" "@) + decimal(
        j.ts as int,
    ) + encode_utf8("\n"@)
}

/// One record per window, in order.
pub open spec fn records(host: Seq<u8>, cpu: u32, js: Seq<Jitter>) -> Seq<Seq<u8>> {
    Seq::new(js.len(), |i: int| record(host, cpu, js[i]))
}

/// All the byte strings of `parts`, one after another.
pub open spec fn concat_all(parts: Seq<Seq<u8>>) -> Seq<u8>
    decreases parts.len(),
{
    if parts.len() == 0 {
        Seq::empty()
    } else {
        concat_all(parts.drop_last()) + parts.last()
    }
}

/// The batches flushed so far and the open buffer, after each of `recs` was
/// appended to the buffer in turn and the buffer flushed whenever it reached
/// the threshold.
pub open spec fn batch_state(recs: Seq<Seq<u8>>) -> (Seq<Seq<u8>>, Seq<u8>)
    decreases recs.len(),
{
    if recs.len() == 0 {
        (Seq::empty(), Seq::empty())
    } else {
        let (done, cur) = batch_state(recs.drop_last());
        let next = cur + recs.last();
        if next.len() >= BATCH_PUBLISH_THRESHOLD_BYTES {
            (done.push(next), Seq::empty())
        } else {
            (done, next)
        }
    }
}

/// Every flush of a core's records: those on reaching the threshold, then
/// the one that always follows the last record, however little it holds.
pub open spec fn batches(recs: Seq<Seq<u8>>) -> Seq<Seq<u8>> {
    batch_state(recs).0.push(batch_state(recs).1)
}

fn push_bytes(out: &mut Vec<u8>, s: &str)
    ensures
        final(out)@ == old(out)@ + encode_utf8(s@),
{
    let b = s.as_bytes();
    let mut i: usize = 0;
    while i < b.len()
        invariant
            b@ == encode_utf8(s@),
            i <= b@.len(),
            out@ == old(out)@ + b@.subrange(0, i as int),
        decreases b@.len() - i,
    {
        out.push(b[i]);
        i = i + 1;
        assert(out@ =~= old(out)@ + b@.subrange(0, i as int));
    }
    assert(b@.subrange(0, i as int) =~= b@);
}

fn push_nat(out: &mut Vec<u8>, n: u64)
    ensures
        final(out)@ == old(out)@ + nat_digits(n as nat),
    decreases n,
{
    if n >= 10 {
        push_nat(out, n / 10);
    }
    let d: u8 = (n % 10) as u8;
    out.push(48 + d);
    assert(out@ =~= old(out)@ + nat_digits(n as nat));
}

fn push_decimal(out: &mut Vec<u8>, v: i64)
    ensures
        final(out)@ == old(out)@ + decimal(v as int),
{
    if v < 0 {
        out.push(45u8);
        let mag: u64 = (0i128 - v as i128) as u64;
        push_nat(out, mag);
        assert(out@ =~= old(out)@ + decimal(v as int));
    } else {
        push_nat(out, v as u64);
    }
}

fn push_record(out: &mut Vec<u8>, host: &str, cpu: u32, j: Jitter)
    ensures
        final(out)@ == old(out)@ + record(encode_utf8(host@), cpu, j),
{
    push_bytes(out, "jitter,host=");
    push_bytes(out, host);
    push_bytes(out, ",cpu=");
    push_decimal(out, cpu as i64);
    push_bytes(out, " jitter=");
    push_decimal(out, j.latency);
    push_bytes(out, " ");
    push_decimal(out, j.ts);
    push_bytes(out, "\n");
    assert(final(out)@ =~= old(out)@ + record(encode_utf8(host@), cpu, j));
}

/// Writes one record per window of `results` for core `cpu` and cuts them
/// into request bodies: a body is complete as soon as it holds
/// `BATCH_PUBLISH_THRESHOLD_BYTES` or more, and the last body holds what is
/// left, possibly nothing. Each body is sent as a request of its own.
pub fn publish_results(program_args: &ProgramArgs, cpu: u32, results: Vec<Jitter>) -> (r: Vec<
    Vec<u8>,
>)
    ensures
        r.deep_view() == batches(
            records(encode_utf8(program_args.local_hostname@), cpu, results@),
        ),
{
    let host = program_args.local_hostname.as_str();
    let ghost recs = records(encode_utf8(host@), cpu, results@);
    let mut done: Vec<Vec<u8>> = Vec::new();
    let mut body: Vec<u8> = Vec::new();
    let mut i: usize = 0;
    assert(recs.subrange(0, 0) =~= Seq::<Seq<u8>>::empty());
    assert(done.deep_view() =~= Seq::<Seq<u8>>::empty());
    while i < results.len()
        invariant
            i <= results@.len(),
            recs == records(encode_utf8(host@), cpu, results@),
            (done.deep_view(), body@) == batch_state(recs.subrange(0, i as int)),
        decreases results@.len() - i,
    {
        let ghost prev = recs.subrange(0, i as int);
        push_record(&mut body, host, cpu, results[i]);
        assert(recs.subrange(0, i + 1).drop_last() =~= prev);
        assert(recs.subrange(0, i + 1).last() == recs[i as int]);
        if body.len() >= BATCH_PUBLISH_THRESHOLD_BYTES {
            let ghost before = done.deep_view();
            let ghost old_done = done@;
            let ghost bytes = body@;
            done.push(body);
            assert(done.deep_view()[before.len() as int] =~= bytes);
            assert forall|k: int| 0 <= k < before.len() implies done.deep_view()[k]
                == before[k] by {
                assert(done@[k] == old_done[k]);
            }
            assert(done.deep_view() =~= before.push(batch_state(recs.subrange(0, i + 1)).0.last()));
            body = Vec::new();
            assert(body@ =~= Seq::<u8>::empty());
        }
        i = i + 1;
    }
    let ghost before = done.deep_view();
    let ghost old_done = done@;
    let ghost bytes = body@;
    done.push(body);
    assert(done.deep_view()[before.len() as int] =~= bytes);
    assert forall|k: int| 0 <= k < before.len() implies done.deep_view()[k] == before[k] by {
        assert(done@[k] == old_done[k]);
    }
    assert(recs.subrange(0, i as int) =~= recs);
    assert(done.deep_view() =~= before.push(batch_state(recs).1));
    done
}

proof fn lemma_batch_state(recs: Seq<Seq<u8>>)
    ensures
        concat_all(batch_state(recs).0) + batch_state(recs).1 == concat_all(recs),
        batch_state(recs).1.len() < BATCH_PUBLISH_THRESHOLD_BYTES,
        forall|k: int|
            0 <= k < batch_state(recs).0.len() ==> #[trigger] batch_state(recs).0[k].len()
                >= BATCH_PUBLISH_THRESHOLD_BYTES,
    decreases recs.len(),
{
    if recs.len() == 0 {
        assert(concat_all(Seq::<Seq<u8>>::empty()) + Seq::<u8>::empty() =~= Seq::<u8>::empty());
    } else {
        let prev = recs.drop_last();
        lemma_batch_state(prev);
        let (done, cur) = batch_state(prev);
        let next = cur + recs.last();
        assert(concat_all(done) + next =~= concat_all(recs));
        if next.len() >= BATCH_PUBLISH_THRESHOLD_BYTES {
            let d2 = done.push(next);
            assert(d2.drop_last() =~= done);
            assert(concat_all(d2) + Seq::<u8>::empty() =~= concat_all(recs));
            assert forall|k: int| 0 <= k < d2.len() implies #[trigger] d2[k].len()
                >= BATCH_PUBLISH_THRESHOLD_BYTES by {
                if k < done.len() {
                    assert(d2[k] == done[k]);
                }
            }
        }
    }
}

/// Batching loses, adds and reorders nothing: the bodies, one after another,
/// are the records one after another.
pub proof fn lemma_batches_keep_records(recs: Seq<Seq<u8>>)
    ensures
        concat_all(batches(recs)) == concat_all(recs),
{
    lemma_batch_state(recs);
    let b = batches(recs);
    assert(b.drop_last() =~= batch_state(recs).0);
}

/// Every body but the last holds at least the threshold, and the last holds
/// less. There is always a last body: a run without records sends exactly
/// one, empty.
pub proof fn lemma_batches_sizes(recs: Seq<Seq<u8>>)
    ensures
        batches(recs).len() >= 1,
        forall|k: int|
            0 <= k < batches(recs).len() - 1 ==> #[trigger] batches(recs)[k].len()
                >= BATCH_PUBLISH_THRESHOLD_BYTES,
        batches(recs).last().len() < BATCH_PUBLISH_THRESHOLD_BYTES,
        recs.len() == 0 ==> batches(recs) == seq![Seq::<u8>::empty()],
{
    lemma_batch_state(recs);
    let b = batches(recs);
    assert forall|k: int| 0 <= k < b.len() - 1 implies #[trigger] b[k].len()
        >= BATCH_PUBLISH_THRESHOLD_BYTES by {
        assert(b[k] == batch_state(recs).0[k]);
    }
    if recs.len() == 0 {
        assert(b =~= seq![Seq::<u8>::empty()]);
    }
}

/// Records that come to the threshold or more in all are sent in more than
/// one body.
pub proof fn lemma_batches_split(recs: Seq<Seq<u8>>)
    requires
        concat_all(recs).len() >= BATCH_PUBLISH_THRESHOLD_BYTES,
    ensures
        batches(recs).len() >= 2,
{
    lemma_batch_state(recs);
    if batch_state(recs).0.len() == 0 {
        assert(concat_all(batch_state(recs).0) =~= Seq::<u8>::empty());
        assert(concat_all(batch_state(recs).0) + batch_state(recs).1 =~= batch_state(recs).1);
    }
}

} // verus!
