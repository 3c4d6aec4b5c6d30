use vstd::prelude::*;

use crate::job::{JobRecord, JobType};

verus! {

/// The domain-specific unit of work of a job (send an email, convert an
/// image). It never touches the job record: the executor owns all status
/// changes.
pub trait SideEffectProcessor {
    fn process(&mut self, job: &JobRecord) -> Result<(), String>;
}

/// One processor per job type, chosen by the job's tag.
pub struct ByJobType<E, I> {
    pub email_send: E,
    pub image_convert: I,
}

impl<E: SideEffectProcessor, I: SideEffectProcessor> SideEffectProcessor for ByJobType<E, I> {
    fn process(&mut self, job: &JobRecord) -> Result<(), String> {
        match job.job_type {
            JobType::EmailSend => self.email_send.process(job),
            JobType::ImageConvert => self.image_convert.process(job),
        }
    }
}

/// A call made to the processor: the job handed to it and what it returned.
pub type ProcessorCall = (JobRecord, Result<(), String>);

/// A processor together with the record of every call made through it.
pub struct LoggedProcessor<P> {
    processor: P,
    log: Ghost<Seq<ProcessorCall>>,
}

impl<P: SideEffectProcessor> LoggedProcessor<P> {
    /// The calls made so far, in order.
    pub closed spec fn calls(&self) -> Seq<ProcessorCall> {
        self.log@
    }

    pub fn new(processor: P) -> (r: LoggedProcessor<P>)
        ensures
            r.calls() == Seq::<ProcessorCall>::empty(),
    {
        LoggedProcessor { processor, log: Ghost(Seq::empty()) }
    }

    /// Hands `job` to the processor and records the call.
    pub fn process(&mut self, job: &JobRecord) -> (r: Result<(), String>)
        ensures
            final(self).calls() == old(self).calls().push((*job, r)),
    {
        let r = self.processor.process(job);
        self.log = Ghost(self.log@.push((*job, r)));
        r
    }

    pub fn processor(&self) -> &P {
        &self.processor
    }
}

} // verus!
