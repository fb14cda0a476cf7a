use pin_search::config::{ConfigError, SearchConfig};
use pin_search::domain::IterationDomain;
use pin_search::worker::{Phase, WorkerAction, WorkerEvent};

#[test]
fn the_standard_search_covers_every_two_digit_date_and_every_suffix() {
    let c = SearchConfig::standard();
    assert_eq!(c.checksum_space, 10_000);
    assert_eq!(c.worker_count, 8);
    assert_eq!(c.domain, IterationDomain::new(0, 0, 0, 100, 100, 100));
    assert_eq!(c.validate(), Ok(()));
}

#[test]
fn a_search_without_workers_is_refused() {
    let mut c = SearchConfig::standard();
    c.worker_count = 0;
    assert_eq!(c.validate(), Err(ConfigError::NoWorkers));
    assert!(c.coordinator().is_none());
    assert!(c.worker(0).is_none());
}

#[test]
fn a_search_past_the_four_digit_suffixes_is_refused() {
    let mut c = SearchConfig::standard();
    c.checksum_space = 10_001;
    assert_eq!(c.validate(), Err(ConfigError::ChecksumSpaceTooLarge));
    c.checksum_space = 10_000;
    assert_eq!(c.validate(), Ok(()));
    c.checksum_space = 0;
    assert_eq!(c.validate(), Ok(()));
}

#[test]
fn a_search_past_the_two_digit_components_is_refused() {
    let mut c = SearchConfig::standard();
    c.domain = IterationDomain::new(0, 1, 0, 100, 100, 100);
    assert_eq!(c.validate(), Err(ConfigError::DomainTooWide));
    c.worker_count = 0;
    assert_eq!(c.validate(), Err(ConfigError::NoWorkers));
}

#[test]
fn the_workers_of_a_search_share_its_settings() {
    let c = SearchConfig {
        checksum_space: 5,
        worker_count: 2,
        domain: IterationDomain::new(0, 0, 0, 1, 1, 1),
    };
    assert!(c.worker(2).is_none());
    let mut turns = c.coordinator().unwrap();
    let mut first = c.worker(0).unwrap();
    let mut second = c.worker(1).unwrap();
    let mut sink = Vec::new();
    let mut pending = vec![first.step(WorkerEvent::Started), second.step(WorkerEvent::Started)];
    // the second worker is always asked first
    while first.phase != Phase::Finished || second.phase != Phase::Finished {
        for id in [1usize, 0] {
            let worker = if id == 0 { &mut first } else { &mut second };
            let next = match &pending[id] {
                WorkerAction::Evaluate(p) => {
                    assert_eq!(p.checksum % 2, id as u16);
                    worker.step(WorkerEvent::MaskReady(&[true]))
                }
                WorkerAction::Write(block) => {
                    if !turns.acquire(id as u16) {
                        continue;
                    }
                    sink.extend_from_slice(block);
                    assert_eq!(turns.release(id as u16), Ok(()));
                    worker.step(WorkerEvent::BlockWritten)
                }
                WorkerAction::Stop => continue,
                other => panic!("{:?}", other),
            };
            pending[id] = next;
        }
    }
    assert_eq!(
        String::from_utf8(sink).unwrap(),
        "000000-0000 \n000000-0001 \n000000-0002 \n000000-0003 \n000000-0004 \n"
    );
}
