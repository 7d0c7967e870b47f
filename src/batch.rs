use vstd::prelude::*;

verus! {

/// The decisions of the transaction forwarder: requests are buffered and sent
/// on as one batch once the buffer grows past `batch_size`, or once `timeout`
/// milliseconds have passed since the first request of the batch arrived.
pub struct BatchForward<T> {
    pub batch_size: usize,
    pub timeout: u64,
    pub request_buffer: Vec<T>,
    /// When the buffered batch is due; meaningful only while the buffer holds requests.
    pub deadline: u64,
}

/// `a + b`, or the largest `u64` where the sum does not fit.
pub open spec fn saturating_sum(a: u64, b: u64) -> u64 {
    if a + b > u64::MAX {
        u64::MAX
    } else {
        (a + b) as u64
    }
}

impl<T> BatchForward<T> {
    pub fn new(batch_size: usize, timeout: u64) -> (r: BatchForward<T>)
        ensures
            r.batch_size == batch_size,
            r.timeout == timeout,
            r.request_buffer@.len() == 0,
    {
        BatchForward { batch_size, timeout, request_buffer: Vec::new(), deadline: 0 }
    }

    /// Empties the buffer and hands back what it held.
    fn batch_forward(&mut self) -> (r: Vec<T>)
        ensures
            r@ == old(self).request_buffer@,
            final(self).request_buffer@.len() == 0,
            final(self).batch_size == old(self).batch_size,
            final(self).timeout == old(self).timeout,
            final(self).deadline == old(self).deadline,
    {
        let mut out: Vec<T> = Vec::new();
        std::mem::swap(&mut out, &mut self.request_buffer);
        out
    }

    /// Sends the batch on where the buffer holds more than `batch_size` requests.
    fn try_batch_forward(&mut self) -> (r: Option<Vec<T>>)
        ensures
            old(self).request_buffer@.len() > old(self).batch_size ==> (r matches Some(b) && b@
                == old(self).request_buffer@ && final(self).request_buffer@.len() == 0),
            old(self).request_buffer@.len() <= old(self).batch_size ==> r is None
                && final(self).request_buffer@ == old(self).request_buffer@,
            final(self).batch_size == old(self).batch_size,
            final(self).timeout == old(self).timeout,
            final(self).deadline == old(self).deadline,
    {
        if self.request_buffer.len() > self.batch_size {
            Some(self.batch_forward())
        } else {
            None
        }
    }

    /// A request arrived at time `now`: it joins the buffer, which starts its
    /// countdown if it was empty; the batch to send, if one is due by size.
    pub fn on_request(&mut self, req: T, now: u64) -> (r: Option<Vec<T>>)
        ensures
            final(self).batch_size == old(self).batch_size,
            final(self).timeout == old(self).timeout,
            old(self).request_buffer@.len() == 0 ==> final(self).deadline == saturating_sum(
                now,
                old(self).timeout,
            ),
            old(self).request_buffer@.len() > 0 ==> final(self).deadline == old(self).deadline,
            old(self).request_buffer@.len() + 1 > old(self).batch_size ==> (r matches Some(b)
                && b@ == old(self).request_buffer@.push(req) && final(self).request_buffer@.len()
                == 0),
            old(self).request_buffer@.len() + 1 <= old(self).batch_size ==> r is None
                && final(self).request_buffer@ == old(self).request_buffer@.push(req),
    {
        if self.request_buffer.len() == 0 {
            self.deadline = now.saturating_add(self.timeout);
        }
        self.request_buffer.push(req);
        self.try_batch_forward()
    }

    /// The clock reads `now`: the batch to send, if its deadline has come.
    pub fn on_timeout(&mut self, now: u64) -> (r: Option<Vec<T>>)
        ensures
            final(self).batch_size == old(self).batch_size,
            final(self).timeout == old(self).timeout,
            final(self).deadline == old(self).deadline,
            old(self).request_buffer@.len() > 0 && now >= old(self).deadline ==> (r matches Some(b)
                && b@ == old(self).request_buffer@ && final(self).request_buffer@.len() == 0),
            !(old(self).request_buffer@.len() > 0 && now >= old(self).deadline) ==> r is None
                && final(self).request_buffer@ == old(self).request_buffer@,
    {
        if self.request_buffer.len() > 0 && now >= self.deadline {
            Some(self.batch_forward())
        } else {
            None
        }
    }

    /// How long to wait for the next request at time `now`: `None` to wait
    /// without limit (nothing is buffered), else the time left to the deadline.
    pub fn wait_for(&self, now: u64) -> (r: Option<u64>)
        ensures
            self.request_buffer@.len() == 0 ==> r is None,
            self.request_buffer@.len() > 0 ==> r == Some(
                if now >= self.deadline {
                    0u64
                } else {
                    (self.deadline - now) as u64
                },
            ),
    {
        if self.request_buffer.len() == 0 {
            None
        } else if now >= self.deadline {
            Some(0)
        } else {
            Some(self.deadline - now)
        }
    }
}

} // verus!
