use vstd::prelude::*;
use vstd::utf8::encode_utf8;

use crate::config::{spec_sample_count, ProgramArgs};
use crate::publish::{batches, publish_results, records};
use crate::sampler::Sampler;

verus! {

/// What a finished run of core `cpu` sends: the request bodies of its
/// recorded windows, leaving out the slots that no window reached.
pub fn capture_jitter(cpu: u32, program_args: &ProgramArgs, sampler: &Sampler) -> (r: Vec<Vec<u8>>)
    requires
        sampler.wf(),
        sampler.results@.len() == spec_sample_count(
            program_args.duration_seconds as int,
            program_args.report_interval_millis as int,
        ),
        sampler.interval_ns == program_args.spec_interval_nanos(),
    ensures
        r.deep_view() == batches(
            records(encode_utf8(program_args.local_hostname@), cpu, sampler.spec_published()),
        ),
        sampler.spec_published().len() <= spec_sample_count(
            program_args.duration_seconds as int,
            program_args.report_interval_millis as int,
        ),
        // a run that filled every slot publishes one record per window
        sampler.count == sampler.results@.len() ==> sampler.spec_published()
            == sampler.results@,
        // on a clock with a non-negative epoch no record has a zero timestamp
        sampler.start@ >= 0 ==> forall|i: int|
            0 <= i < sampler.spec_published().len() ==> #[trigger] sampler.spec_published()[i].ts
                != 0,
{
    proof {
        assert(sampler.count == sampler.results@.len() ==> sampler.spec_published()
            =~= sampler.results@);
    }
    publish_results(program_args, cpu, sampler.published())
}

/// The address that batches are posted to: `<influx_url>/write?db=<influx_db>`.
pub fn write_url(program_args: &ProgramArgs) -> (r: String)
    ensures
        r@ == program_args.influx_url@ + "/write?db="@ + program_args.influx_db@,
{
    let mut url = program_args.influx_url.clone();
    url.append("/write?db=");
    url.append(program_args.influx_db.as_str());
    url
}

} // verus!
