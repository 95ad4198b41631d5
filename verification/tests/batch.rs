use otel_collector::batch::{BatchProcessor, DEFAULT_BUFFER_SIZE, DEFAULT_SEND_BATCH_SIZE, DEFAULT_TIMEOUT, Trigger};
use otel_collector::config::BatchProcessorConfig;

fn config(size: Option<usize>, max: Option<usize>, timeout: Option<u128>) -> BatchProcessorConfig {
    BatchProcessorConfig {
        send_batch_size: size,
        send_batch_max_size: max,
        timeout,
        metadata_keys: Vec::new(),
        metadata_cardinality_limit: None,
        send_queue_buffer_size: None,
    }
}

#[test]
fn lib_it_works() {}

#[test]
fn from_config_uses_defaults() {
    let p: BatchProcessor<u32> = BatchProcessor::from_config("batch".to_string(), &config(None, None, None));
    assert_eq!(p.id, "batch");
    assert_eq!(p.send_batch_size, Some(DEFAULT_SEND_BATCH_SIZE));
    assert_eq!(p.send_batch_size, Some(8192));
    assert_eq!(p.send_batch_max_size, None);
    assert_eq!(p.timeout, Some(DEFAULT_TIMEOUT));
    assert_eq!(p.timeout, Some(200_000_000));
    assert_eq!(p.queue_buffer_size, DEFAULT_BUFFER_SIZE);
    assert_eq!(p.current_batch_size(), 0);
}

#[test]
fn from_config_zero_values_disable_limits() {
    let p: BatchProcessor<u32> = BatchProcessor::from_config("b".to_string(), &config(Some(0), Some(0), Some(0)));
    assert_eq!(p.send_batch_size, None);
    assert_eq!(p.send_batch_max_size, None);
    assert_eq!(p.timeout, None);
}

#[test]
fn from_config_raises_max_to_batch_size() {
    let p: BatchProcessor<u32> = BatchProcessor::from_config("b".to_string(), &config(Some(10), Some(4), None));
    assert_eq!(p.send_batch_size, Some(10));
    assert_eq!(p.send_batch_max_size, Some(10));
    let p: BatchProcessor<u32> = BatchProcessor::from_config("b".to_string(), &config(None, Some(100), None));
    assert_eq!(p.send_batch_max_size, Some(8192));
    let p: BatchProcessor<u32> = BatchProcessor::from_config("b".to_string(), &config(Some(3), Some(5), Some(7)));
    assert_eq!(p.send_batch_max_size, Some(5));
    assert_eq!(p.timeout, Some(7));
}

#[test]
fn without_timeout_there_is_no_batch_size() {
    let p: BatchProcessor<u32> = BatchProcessor::from_config("b".to_string(), &config(Some(5), None, Some(0)));
    assert_eq!(p.send_batch_size, None);
}

#[test]
fn sends_a_batch_once_the_size_is_reached() {
    let mut p: BatchProcessor<u32> = BatchProcessor::from_config("b".to_string(), &config(Some(3), None, None));
    assert!(p.process_item(1).is_empty());
    assert!(p.process_item(2).is_empty());
    assert_eq!(p.current_batch_size(), 2);
    let batches = p.process_item(3);
    assert_eq!(batches, vec![vec![1, 2, 3]]);
    assert_eq!(p.current_batch_size(), 0);
}

#[test]
fn without_timeout_items_are_sent_at_once() {
    let mut p: BatchProcessor<u32> = BatchProcessor::from_config("b".to_string(), &config(None, None, Some(0)));
    assert_eq!(p.process_item(7), vec![vec![7]]);
    assert_eq!(p.process_item(8), vec![vec![8]]);
    assert_eq!(p.current_batch_size(), 0);
}

#[test]
fn batches_are_split_at_the_maximum_size() {
    let mut p: BatchProcessor<u32> = BatchProcessor::from_config("b".to_string(), &config(Some(2), Some(2), None));
    p.current_batch = vec![1, 2, 3, 4];
    let batches = p.process_item(5);
    // 5 waiting: [1,2], then [3,4], then 1 left below the size
    assert_eq!(batches, vec![vec![1, 2], vec![3, 4]]);
    assert_eq!(p.current_batch, vec![5]);
}

#[test]
fn batching_keeps_every_item_in_order() {
    let mut p: BatchProcessor<u32> = BatchProcessor::from_config("b".to_string(), &config(Some(3), Some(3), None));
    let mut sent: Vec<u32> = Vec::new();
    for i in 0..10 {
        for b in p.process_item(i) {
            assert!(!b.is_empty() && b.len() <= 3);
            sent.extend(b);
        }
    }
    sent.extend(p.current_batch.iter().copied());
    assert_eq!(sent, (0..10).collect::<Vec<u32>>());
    assert!(p.current_batch_size() < 3);
}

#[test]
fn timeout_sends_what_waits_up_to_the_maximum() {
    let mut p: BatchProcessor<u32> = BatchProcessor::from_config("b".to_string(), &config(Some(10), Some(10), None));
    assert_eq!(p.on_timeout(), None);
    for i in 0..4 {
        assert!(p.process_item(i).is_empty());
    }
    assert_eq!(p.on_timeout(), Some(vec![0, 1, 2, 3]));
    assert_eq!(p.current_batch_size(), 0);
    p.send_batch_max_size = Some(2);
    p.current_batch = vec![4, 5, 6];
    assert_eq!(p.on_timeout(), Some(vec![4, 5]));
    assert_eq!(p.current_batch, vec![6]);
}

#[test]
fn triggers_are_distinct() {
    assert_ne!(Trigger::Timeout, Trigger::BatchSize);
}
