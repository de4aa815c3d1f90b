use mineardmg::distributor::process_chunk;
use mineardmg::distributor::run_pipeline;
use mineardmg::distributor::worker_count;
use mineardmg::distributor::WorkDistributor;
use mineardmg::processor::codec_error;
use mineardmg::processor::process_asset;
use mineardmg::processor::CodecStep;
use mineardmg::processor::CodecError;
use mineardmg::processor::ProcessError;
use mineardmg::queue::MAX_QUEUE_CAPACITY;

fn hashes(list: &[&str]) -> Vec<String> {
    list.iter().map(|hash| hash.to_string()).collect()
}

#[test]
fn a_new_book_hands_the_hashes_out_in_order() {
    let mut book = WorkDistributor::new(&hashes(&["a1", "b2", "c3"])).unwrap();
    assert!(!book.is_finished());
    assert_eq!(book.progress(), 0);
    assert_eq!(book.next_task(), Some("a1".to_string()));
    assert_eq!(book.next_task(), Some("b2".to_string()));
    assert_eq!(book.next_task(), Some("c3".to_string()));
    assert_eq!(book.next_task(), None);
    assert_eq!(book.next_task(), None);
}

#[test]
fn a_hash_that_is_listed_twice_is_handed_out_once() {
    let mut book = WorkDistributor::new(&hashes(&["a1", "b2", "a1", "a1", "c3", "b2"])).unwrap();
    assert_eq!(book.next_task(), Some("a1".to_string()));
    assert_eq!(book.next_task(), Some("b2".to_string()));
    assert_eq!(book.next_task(), Some("c3".to_string()));
    assert_eq!(book.next_task(), None);
}

#[test]
fn an_empty_batch_is_finished_at_once() {
    let mut book = WorkDistributor::new(&Vec::new()).unwrap();
    assert!(book.is_finished());
    assert_eq!(book.next_task(), None);
    assert_eq!(book.results_map().len(), 0);
    assert!(book.failure_list().is_empty());
}

#[test]
fn a_batch_of_one_hash_is_taken() {
    let mut book = WorkDistributor::new(&hashes(&["a1"])).unwrap();
    assert_eq!(book.next_task(), Some("a1".to_string()));
    assert!(book.complete("a1".to_string(), Ok(vec![1])));
    assert!(book.is_finished());
}

#[test]
fn the_capacity_of_the_queue_is_known() {
    assert_eq!(MAX_QUEUE_CAPACITY, 134217727);
}

#[test]
fn a_payload_is_stored_under_its_hash() {
    let mut book = WorkDistributor::new(&hashes(&["a1", "b2"])).unwrap();
    let task = book.next_task().unwrap();
    assert!(!book.is_finished());
    assert!(book.complete(task, Ok(vec![1, 2, 3])));
    assert_eq!(book.progress(), 1);
    assert_eq!(*book.results_map().get("a1").unwrap(), vec![1, 2, 3]);
    assert!(!book.results_map().contains_key("b2"));
    assert!(!book.is_finished());
}

#[test]
fn a_failure_is_put_on_record_under_its_hash() {
    let mut book = WorkDistributor::new(&hashes(&["a1"])).unwrap();
    let task = book.next_task().unwrap();
    assert!(book.complete(task, Err(ProcessError::Codec(CodecError::Decode))));
    assert_eq!(book.progress(), 0);
    assert_eq!(book.results_map().len(), 0);
    assert_eq!(book.failure_list().len(), 1);
    assert_eq!(book.failure_list()[0].hash, "a1");
    assert_eq!(book.failure_list()[0].error, ProcessError::Codec(CodecError::Decode));
    assert!(book.is_finished());
}

#[test]
fn an_outcome_for_a_hash_that_is_not_in_flight_is_not_taken() {
    let mut book = WorkDistributor::new(&hashes(&["a1", "b2"])).unwrap();
    assert!(!book.complete("a1".to_string(), Ok(vec![1])));
    assert!(!book.complete("zz".to_string(), Err(ProcessError::Network)));
    let task = book.next_task().unwrap();
    assert!(book.complete(task.clone(), Ok(vec![1])));
    assert!(!book.complete(task, Ok(vec![2])));
    assert_eq!(*book.results_map().get("a1").unwrap(), vec![1]);
    assert_eq!(book.progress(), 1);
    assert!(book.failure_list().is_empty());
}

#[test]
fn outcomes_may_come_in_any_order() {
    let mut book = WorkDistributor::new(&hashes(&["a1", "b2", "c3", "d4"])).unwrap();
    let one = book.next_task().unwrap();
    let two = book.next_task().unwrap();
    let three = book.next_task().unwrap();
    assert!(book.complete(two, Ok(vec![2])));
    let four = book.next_task().unwrap();
    assert!(book.complete(four, Err(ProcessError::Network)));
    assert!(book.complete(one, Ok(vec![1])));
    assert!(!book.is_finished());
    assert!(book.complete(three, Err(ProcessError::Codec(CodecError::Encode))));
    assert!(book.is_finished());
    assert_eq!(book.progress(), 2);
    assert_eq!(book.results_map().len() + book.failure_list().len(), 4);
    assert_eq!(book.failure_list()[0].hash, "d4");
    assert_eq!(book.failure_list()[1].hash, "c3");
}

#[test]
fn one_worker_drains_the_queue() {
    let mut book = WorkDistributor::new(&hashes(&["a1", "b2", "c3"])).unwrap();
    process_chunk(&mut book, |hash: &String| Ok(hash.as_bytes().to_vec()));
    assert!(book.is_finished());
    assert_eq!(book.progress(), 3);
    assert_eq!(*book.results_map().get("a1").unwrap(), b"a1".to_vec());
    assert_eq!(*book.results_map().get("b2").unwrap(), b"b2".to_vec());
    assert_eq!(*book.results_map().get("c3").unwrap(), b"c3".to_vec());
}

#[test]
fn a_failed_item_does_not_stop_the_others() {
    let mut book = WorkDistributor::new(&hashes(&["a1", "bad1", "c3"])).unwrap();
    process_chunk(&mut book, |hash: &String| {
        if hash == "bad1" {
            Err(ProcessError::Network)
        } else {
            Ok(vec![1])
        }
    });
    assert!(book.is_finished());
    assert!(!book.results_map().contains_key("bad1"));
    assert!(book.results_map().contains_key("a1"));
    assert!(book.results_map().contains_key("c3"));
    assert_eq!(book.failure_list().len(), 1);
    assert_eq!(book.failure_list()[0].hash, "bad1");
    assert_eq!(book.failure_list()[0].error, ProcessError::Network);
}

#[test]
fn a_worker_leaves_what_is_in_flight_elsewhere() {
    let mut book = WorkDistributor::new(&hashes(&["a1", "b2", "c3"])).unwrap();
    let elsewhere = book.next_task().unwrap();
    process_chunk(&mut book, |_hash: &String| Ok(vec![0]));
    assert!(!book.is_finished());
    assert_eq!(book.progress(), 2);
    assert!(book.complete(elsewhere, Ok(vec![1])));
    assert!(book.is_finished());
    assert_eq!(book.progress(), 3);
}

#[test]
fn every_hash_ends_with_one_outcome_for_any_number_of_workers() {
    let batch = hashes(&["h0", "h1", "h2", "h3", "h4", "h5", "h6"]);
    for workers in 1..=batch.len() {
        let mut book = WorkDistributor::new(&batch).unwrap();
        let mut hands: Vec<Option<String>> = vec![None; workers];
        let mut stopped = vec![false; workers];
        let mut turn = 0;
        while stopped.iter().any(|done| !done) {
            let worker = turn % workers;
            turn += 1;
            if stopped[worker] {
                continue;
            }
            match hands[worker].take() {
                Some(hash) => {
                    let outcome = if hash.ends_with('3') || hash.ends_with('5') {
                        Err(ProcessError::Network)
                    } else {
                        Ok(hash.as_bytes().to_vec())
                    };
                    assert!(book.complete(hash, outcome));
                }
                None => match book.next_task() {
                    Some(hash) => hands[worker] = Some(hash),
                    None => stopped[worker] = true,
                },
            }
        }
        assert!(book.is_finished());
        assert_eq!(book.results_map().len(), 5);
        assert_eq!(book.failure_list().len(), 2);
        for hash in &batch {
            let processed = book.results_map().contains_key(hash);
            let failed = book.failure_list().iter().filter(|failure| &failure.hash == hash).count();
            assert_eq!(failed + if processed { 1 } else { 0 }, 1);
        }
    }
}

#[test]
fn the_number_of_workers_is_at_least_one() {
    assert_eq!(worker_count(Some(8)), 8);
    assert_eq!(worker_count(Some(1)), 1);
    assert_eq!(worker_count(Some(0)), 1);
    assert_eq!(worker_count(None), 1);
}

#[test]
fn errors_say_what_failed() {
    assert_eq!(ProcessError::Network.message(), "failed to fetch asset bytes");
    assert_eq!(
        ProcessError::Codec(CodecError::Decode).message(),
        "failed to decode an audio block"
    );
    assert_eq!(ProcessError::Codec(CodecError::Encode).message(), "failed to encode audio block");
}

#[test]
fn an_item_is_fetched_from_its_address_and_transcoded() {
    let outcome = process_asset(
        &"a1b2".to_string(),
        |url: &String| Some(url.as_bytes().to_vec()),
        |raw: Vec<u8>| Ok(raw.into_iter().rev().collect()),
    );
    let expected: Vec<u8> =
        "https://resources.download.minecraft.net/a1/a1b2".bytes().rev().collect();
    assert_eq!(outcome, Ok(expected));
}

#[test]
fn a_failed_fetch_is_a_network_error_and_nothing_is_transcoded() {
    let outcome = process_asset(
        &"bad1".to_string(),
        |_url: &String| None,
        |_raw: Vec<u8>| panic!("nothing was fetched"),
    );
    assert_eq!(outcome, Err(ProcessError::Network));
}

#[test]
fn a_hash_without_an_address_is_a_network_error_and_nothing_is_fetched() {
    let outcome = process_asset(
        &"b".to_string(),
        |_url: &String| panic!("there is no address"),
        |_raw: Vec<u8>| panic!("nothing was fetched"),
    );
    assert_eq!(outcome, Err(ProcessError::Network));
}

#[test]
fn a_failure_of_the_codec_is_handed_on() {
    let decode = process_asset(
        &"a1b2".to_string(),
        |_url: &String| Some(vec![1, 2, 3]),
        |_raw: Vec<u8>| Err(CodecError::Decode),
    );
    assert_eq!(decode, Err(ProcessError::Codec(CodecError::Decode)));
    let encode = process_asset(
        &"a1b2".to_string(),
        |_url: &String| Some(vec![1, 2, 3]),
        |_raw: Vec<u8>| Err(CodecError::Encode),
    );
    assert_eq!(encode, Err(ProcessError::Codec(CodecError::Encode)));
}

#[test]
fn a_batch_with_a_transport_failure_still_completes() {
    let mut book = WorkDistributor::new(&hashes(&["good1", "bad1", "good2"])).unwrap();
    process_chunk(&mut book, |hash: &String| {
        process_asset(
            hash,
            |url: &String| if url.ends_with("/bad1") { None } else { Some(vec![1, 2]) },
            |raw: Vec<u8>| Ok(raw),
        )
    });
    assert!(book.is_finished());
    assert!(!book.results_map().contains_key("bad1"));
    assert_eq!(book.results_map().len(), 2);
    assert_eq!(book.failure_list().len(), 1);
    assert_eq!(book.failure_list()[0].hash, "bad1");
    assert_eq!(book.failure_list()[0].error, ProcessError::Network);
}

#[test]
fn a_pipeline_accounts_for_every_hash() {
    let batch = hashes(&["a1", "bad1", "b2", "a1", "bad2", "c3", "b2"]);
    let book = run_pipeline(&batch, |hash: &String| {
        if hash.starts_with("bad") {
            Err(ProcessError::Codec(CodecError::Decode))
        } else {
            Ok(hash.as_bytes().to_vec())
        }
    })
    .unwrap();
    assert!(book.is_finished());
    assert_eq!(book.results_map().len(), 3);
    assert_eq!(book.failure_list().len(), 2);
    assert_eq!(book.results_map().len() + book.failure_list().len(), 5);
    assert_eq!(*book.results_map().get("c3").unwrap(), b"c3".to_vec());
    assert_eq!(book.failure_list()[0].hash, "bad1");
    assert_eq!(book.failure_list()[1].hash, "bad2");
}

#[test]
fn a_pipeline_over_nothing_is_finished() {
    let book =
        run_pipeline(&Vec::new(), |_hash: &String| panic!("there is nothing to process")).unwrap();
    assert!(book.is_finished());
    assert_eq!(book.progress(), 0);
    assert!(book.failure_list().is_empty());
}

#[test]
fn reading_fails_as_decoding_and_writing_as_encoding() {
    assert_eq!(codec_error(CodecStep::OpenDecoder), CodecError::Decode);
    assert_eq!(codec_error(CodecStep::DecodeBlock), CodecError::Decode);
    assert_eq!(codec_error(CodecStep::OpenEncoder), CodecError::Encode);
    assert_eq!(codec_error(CodecStep::EncodeBlock), CodecError::Encode);
    assert_eq!(codec_error(CodecStep::FinishEncoder), CodecError::Encode);
}

#[test]
fn the_outcome_of_a_hash_is_its_payload_or_its_failure() {
    let mut book = WorkDistributor::new(&hashes(&["a1", "bad1", "c3", "d4"])).unwrap();
    let first = book.next_task().unwrap();
    let second = book.next_task().unwrap();
    let third = book.next_task().unwrap();
    assert!(book.complete(first, Ok(vec![1, 2])));
    assert!(book.complete(second, Err(ProcessError::Network)));
    assert_eq!(book.outcome_of(&"a1".to_string()), Some(Ok(vec![1, 2])));
    assert_eq!(book.outcome_of(&"bad1".to_string()), Some(Err(ProcessError::Network)));
    assert_eq!(book.outcome_of(&third), None);
    assert_eq!(book.outcome_of(&"d4".to_string()), None);
    assert_eq!(book.outcome_of(&"zz".to_string()), None);
}
