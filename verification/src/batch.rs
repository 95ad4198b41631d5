//! The batch processor: it gathers the payloads it receives and sends them on in batches.
use vstd::prelude::*;
use crate::config::BatchProcessorConfig;

verus! {

/// Why a batch was sent.
#[derive(Debug, Clone, Copy, Hash, PartialEq, Eq, PartialOrd, Ord)]
pub enum Trigger {
    Timeout,
    BatchSize,
}

/// The number of items after which a batch is sent when the configuration names none.
pub const DEFAULT_SEND_BATCH_SIZE: usize = 8192;

/// The time, in nanoseconds, after which a batch is sent when the configuration names none.
pub const DEFAULT_TIMEOUT: u128 = 200_000_000;

/// The capacity of the queue of outgoing batches when the configuration names none.
pub const DEFAULT_BUFFER_SIZE: usize = 1024;

/// The state of a batch processor: its settings and the items waiting to be sent.
#[derive(Debug)]
pub struct BatchProcessor<T> {
    pub id: String,
    pub send_batch_size: Option<usize>,
    pub send_batch_max_size: Option<usize>,
    /// In nanoseconds.
    pub timeout: Option<u128>,
    /// The capacity of the queue of outgoing batches.
    pub queue_buffer_size: usize,
    /// The items waiting to be sent, oldest first.
    pub current_batch: Vec<T>,
}

/// The number of items a batch takes from `len` waiting ones: all of them, up to the maximum.
pub open spec fn take_count(len: int, max: Option<usize>) -> int {
    match max {
        Some(m) => if len < m {
            len
        } else {
            m as int
        },
        None => len,
    }
}

/// Whether `len` waiting items are enough to send a batch: with a batch size, as many as
/// it; without one (no timeout), any.
pub open spec fn size_reached(len: int, size: Option<usize>) -> bool {
    match size {
        Some(s) => len >= s,
        None => true,
    }
}

/// The batches sent while the size trigger holds, in order, and the items left waiting.
pub open spec fn drain_batches<T>(batch: Seq<T>, size: Option<usize>, max: Option<usize>) -> (Seq<Seq<T>>, Seq<T>)
    decreases batch.len(),
{
    if batch.len() > 0 && max != Some(0usize) && size_reached(batch.len() as int, size) {
        let n = take_count(batch.len() as int, max);
        let (rest_batches, left) = drain_batches(batch.skip(n), size, max);
        (seq![batch.take(n)] + rest_batches, left)
    } else {
        (Seq::empty(), batch)
    }
}

/// No item is lost, repeated or reordered by batching: the batches sent, one after the other,
/// followed by the items left waiting, are the items that were waiting. Every batch holds at
/// least one item and no more than the maximum size.
pub proof fn batches_keep_items<T>(items: Seq<T>, size: Option<usize>, max: Option<usize>)
    requires
        max != Some(0usize),
    ensures
        drain_batches(items, size, max).0.flatten() + drain_batches(items, size, max).1 == items,
        forall|i: int|
            0 <= i < drain_batches(items, size, max).0.len() ==> {
                let b = #[trigger] drain_batches(items, size, max).0[i];
                &&& b.len() > 0
                &&& max matches Some(m) ==> b.len() <= m
            },
    decreases items.len(),
{
    let d = drain_batches(items, size, max);
    if items.len() > 0 && max != Some(0usize) && size_reached(items.len() as int, size) {
        let n = take_count(items.len() as int, max);
        let rest = drain_batches(items.skip(n), size, max);
        batches_keep_items(items.skip(n), size, max);
        assert(d.0 == seq![items.take(n)] + rest.0);
        assert((seq![items.take(n)] + rest.0).drop_first() =~= rest.0);
        assert(d.0.flatten() == items.take(n) + rest.0.flatten());
        assert(items.take(n) + rest.0.flatten() + rest.1 =~= items.take(n) + (rest.0.flatten() + rest.1));
        assert(items.take(n) + items.skip(n) =~= items);
        assert forall|i: int| 0 <= i < d.0.len() implies {
            let b = #[trigger] d.0[i];
            &&& b.len() > 0
            &&& max matches Some(m) ==> b.len() <= m
        } by {
            if i > 0 {
                assert(d.0[i] == rest.0[i - 1]);
            }
        }
    } else {
        assert(d.0.flatten() + d.1 =~= items);
    }
}

/// Once batching stops, fewer items wait than the batch size, and none wait without one.
pub proof fn drained_below_size<T>(items: Seq<T>, size: Option<usize>, max: Option<usize>)
    requires
        max != Some(0usize),
    ensures
        !size_reached(drain_batches(items, size, max).1.len() as int, size)
            || drain_batches(items, size, max).1.len() == 0,
    decreases items.len(),
{
    if items.len() > 0 && size_reached(items.len() as int, size) {
        let n = take_count(items.len() as int, max);
        drained_below_size(items.skip(n), size, max);
    }
}

impl<T> BatchProcessor<T> {
    /// The items waiting to be sent.
    pub open spec fn waiting(self) -> Seq<T> {
        self.current_batch@
    }

    /// The maximum batch size, when there is one, is not zero.
    pub open spec fn wf(self) -> bool {
        self.send_batch_max_size != Some(0usize)
    }

    /// A processor with the settings of the configuration and no waiting items: the batch
    /// size is 8192 unless given, none if given as 0; the maximum is none if not given or
    /// 0, else at least the batch size; the timeout is 200 ms unless given, none if given
    /// as 0, and without a timeout there is no batch size either.
    pub fn from_config(id: String, config: &BatchProcessorConfig) -> (r: BatchProcessor<T>)
        ensures
            r.wf(),
            r.id@ == id@,
            r.waiting() == Seq::<T>::empty(),
            r.timeout == match config.timeout {
                None => Some(DEFAULT_TIMEOUT),
                Some(t) => if t == 0 {
                    None
                } else {
                    Some(t)
                },
            },
            r.send_batch_size == if r.timeout is None {
                None
            } else {
                match config.send_batch_size {
                    None => Some(DEFAULT_SEND_BATCH_SIZE),
                    Some(s) => if s == 0 {
                        None
                    } else {
                        Some(s)
                    },
                }
            },
            r.send_batch_max_size == match config.send_batch_max_size {
                None => None,
                Some(m) => if m == 0 {
                    None
                } else {
                    let size: int = match config.send_batch_size {
                        None => DEFAULT_SEND_BATCH_SIZE as int,
                        Some(s) => s as int,
                    };
                    Some(if m >= size { m } else { size as usize })
                },
            },
            r.queue_buffer_size == match config.send_queue_buffer_size {
                Some(b) => b,
                None => DEFAULT_BUFFER_SIZE,
            },
            r.send_batch_size matches Some(size) ==> (r.send_batch_max_size matches Some(max) ==> max >= size),
    {
        let mut send_batch_size = match config.send_batch_size {
            None => Some(DEFAULT_SEND_BATCH_SIZE),
            Some(size) => if size == 0 {
                None
            } else {
                Some(size)
            },
        };
        let send_batch_max_size = match config.send_batch_max_size {
            None => None,
            Some(size) => if size == 0 {
                None
            } else {
                let lower = match send_batch_size {
                    Some(s) => s,
                    None => 0,
                };
                Some(if size >= lower { size } else { lower })
            },
        };
        let timeout = match config.timeout {
            None => Some(DEFAULT_TIMEOUT),
            Some(t) => if t == 0 {
                None
            } else {
                Some(t)
            },
        };
        if timeout.is_none() {
            send_batch_size = None;
        }
        let queue_buffer_size = match config.send_queue_buffer_size {
            Some(b) => b,
            None => DEFAULT_BUFFER_SIZE,
        };
        let r = BatchProcessor {
            id,
            send_batch_size,
            send_batch_max_size,
            timeout,
            queue_buffer_size,
            current_batch: Vec::new(),
        };
        assert(r.current_batch@ =~= Seq::<T>::empty());
        r
    }

    /// The number of items waiting.
    pub fn current_batch_size(&self) -> (r: usize)
        ensures
            r == self.waiting().len(),
    {
        self.current_batch.len()
    }

    /// Takes the first `n` waiting items.
    fn take_front(&mut self, n: usize) -> (r: Vec<T>)
        requires
            n <= old(self).waiting().len(),
        ensures
            r@ == old(self).waiting().take(n as int),
            final(self).waiting() == old(self).waiting().skip(n as int),
            final(self).id == old(self).id,
            final(self).send_batch_size == old(self).send_batch_size,
            final(self).send_batch_max_size == old(self).send_batch_max_size,
            final(self).timeout == old(self).timeout,
            final(self).queue_buffer_size == old(self).queue_buffer_size,
    {
        let mut items = self.current_batch.split_off(n);
        std::mem::swap(&mut items, &mut self.current_batch);
        assert(self.current_batch@ =~= old(self).current_batch@.skip(n as int));
        assert(items@ =~= old(self).current_batch@.take(n as int));
        items
    }

    /// Adds an item, then sends batches while at least the batch size of items wait (or
    /// any item at all, without a batch size): each batch takes the oldest waiting items, up
    /// to the maximum size. Returns the batches to send, in order; when there is one, the
    /// deadline starts over.
    pub fn process_item(&mut self, item: T) -> (r: Vec<Vec<T>>)
        requires
            old(self).wf(),
        ensures
            final(self).wf(),
            final(self).id == old(self).id,
            final(self).send_batch_size == old(self).send_batch_size,
            final(self).send_batch_max_size == old(self).send_batch_max_size,
            final(self).timeout == old(self).timeout,
            final(self).queue_buffer_size == old(self).queue_buffer_size,
            r@.map_values(|b: Vec<T>| b@) == drain_batches(
                old(self).waiting().push(item),
                old(self).send_batch_size,
                old(self).send_batch_max_size,
            ).0,
            final(self).waiting() == drain_batches(
                old(self).waiting().push(item),
                old(self).send_batch_size,
                old(self).send_batch_max_size,
            ).1,
            r@.map_values(|b: Vec<T>| b@).flatten() + final(self).waiting() == old(self).waiting().push(item),
            final(self).waiting().len() == 0 || !size_reached(
                final(self).waiting().len() as int,
                old(self).send_batch_size,
            ),
    {
        proof {
            batches_keep_items(old(self).waiting().push(item), self.send_batch_size, self.send_batch_max_size);
            drained_below_size(old(self).waiting().push(item), self.send_batch_size, self.send_batch_max_size);
        }
        self.current_batch.push(item);
        let ghost start = self.current_batch@;
        let mut batches: Vec<Vec<T>> = Vec::new();
        loop
            invariant
                self.wf(),
                self.id == old(self).id,
                self.send_batch_size == old(self).send_batch_size,
                self.send_batch_max_size == old(self).send_batch_max_size,
                self.timeout == old(self).timeout,
                self.queue_buffer_size == old(self).queue_buffer_size,
                start == old(self).waiting().push(item),
                batches@.map_values(|b: Vec<T>| b@) + drain_batches(
                    self.current_batch@,
                    self.send_batch_size,
                    self.send_batch_max_size,
                ).0 == drain_batches(start, self.send_batch_size, self.send_batch_max_size).0,
                drain_batches(self.current_batch@, self.send_batch_size, self.send_batch_max_size).1
                    == drain_batches(start, self.send_batch_size, self.send_batch_max_size).1,
            ensures
                batches@.map_values(|b: Vec<T>| b@) == drain_batches(
                    start,
                    self.send_batch_size,
                    self.send_batch_max_size,
                ).0,
                self.current_batch@ == drain_batches(start, self.send_batch_size, self.send_batch_max_size).1,
            decreases self.current_batch@.len(),
        {
            let len = self.current_batch.len();
            let fits = match self.send_batch_size {
                Some(size) => len >= size,
                None => true,
            };
            if len == 0 || !fits {
                assert(batches@.map_values(|b: Vec<T>| b@) =~= batches@.map_values(|b: Vec<T>| b@) + drain_batches(
                    self.current_batch@,
                    self.send_batch_size,
                    self.send_batch_max_size,
                ).0);
                assert(drain_batches(self.current_batch@, self.send_batch_size, self.send_batch_max_size).1
                    == self.current_batch@);
                break;
            }
            let idx = match self.send_batch_max_size {
                Some(m) => if len < m {
                    len
                } else {
                    m
                },
                None => len,
            };
            let ghost before = self.current_batch@;
            let items = self.take_front(idx);
            proof {
                assert(batches@.push(items).map_values(|b: Vec<T>| b@) =~= batches@.map_values(|b: Vec<T>| b@).push(
                    items@,
                ));
                let d = drain_batches(before, self.send_batch_size, self.send_batch_max_size);
                let d2 = drain_batches(self.current_batch@, self.send_batch_size, self.send_batch_max_size);
                assert(d.0 == seq![items@] + d2.0);
                assert(batches@.map_values(|b: Vec<T>| b@).push(items@) + d2.0 =~= batches@.map_values(
                    |b: Vec<T>| b@,
                ) + (seq![items@] + d2.0));
            }
            batches.push(items);
        }
        batches
    }

    /// When the timer expires: the waiting items, up to the maximum size, as a batch to
    /// send, if there is any. The deadline starts over either way.
    pub fn on_timeout(&mut self) -> (r: Option<Vec<T>>)
        requires
            old(self).wf(),
        ensures
            final(self).wf(),
            final(self).id == old(self).id,
            final(self).send_batch_size == old(self).send_batch_size,
            final(self).send_batch_max_size == old(self).send_batch_max_size,
            final(self).timeout == old(self).timeout,
            final(self).queue_buffer_size == old(self).queue_buffer_size,
            match r {
                Some(items) => old(self).waiting().len() > 0 && items@ == old(self).waiting().take(
                    take_count(old(self).waiting().len() as int, old(self).send_batch_max_size),
                ) && final(self).waiting() == old(self).waiting().skip(
                    take_count(old(self).waiting().len() as int, old(self).send_batch_max_size),
                ),
                None => old(self).waiting().len() == 0 && final(self).waiting() == old(self).waiting(),
            },
            old(self).send_batch_max_size is None ==> final(self).waiting().len() == 0,
    {
        let len = self.current_batch.len();
        let idx = match self.send_batch_max_size {
            Some(m) => if len < m {
                len
            } else {
                m
            },
            None => len,
        };
        if idx > 0 {
            Some(self.take_front(idx))
        } else {
            None
        }
    }
}

} // verus!
