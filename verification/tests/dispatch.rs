use json_gen::dispatch::Dispatcher;
use json_gen::error::{GenError, GenErrorType};

#[test]
fn every_document_goes_to_every_destination_in_order() {
    let mut dispatcher = Dispatcher::new(3, 2);
    let mut made = vec![];
    while let Some(place) = dispatcher.pending() {
        made.push(place);
        dispatcher.record(Ok("done".to_string()));
    }
    assert_eq!(made, vec![(0, 0), (0, 1), (1, 0), (1, 1), (2, 0), (2, 1)]);
    assert!(dispatcher.failed().is_empty());
}

#[test]
fn a_run_without_documents_or_destinations_delivers_nothing() {
    assert_eq!(Dispatcher::new(0, 3).pending(), None);
    assert_eq!(Dispatcher::new(3, 0).pending(), None);
    assert_eq!(Dispatcher::new(0, 0).pending(), None);
    let mut dispatcher = Dispatcher::new(0, 3);
    dispatcher.record(Err(GenError::new_with_in_sender("late")));
    assert_eq!(dispatcher.pending(), None);
    assert!(dispatcher.failed().is_empty());
}

#[test]
fn a_failed_delivery_is_recorded_and_the_run_goes_on() {
    let mut dispatcher = Dispatcher::new(2, 2);
    dispatcher.record(Ok("a".to_string()));
    dispatcher.record(Err(GenError::new_with_in_sender("disk full")));
    assert_eq!(dispatcher.pending(), Some((1, 0)));
    dispatcher.record(Err(GenError::new_with_in_sender("no route")));
    dispatcher.record(Ok("d".to_string()));
    assert_eq!(dispatcher.pending(), None);
    let failed = dispatcher.failed();
    assert_eq!(failed.len(), 2);
    assert_eq!((failed[0].document, failed[0].sender), (0, 1));
    assert_eq!(failed[0].error.reason(), "disk full");
    assert_eq!(failed[0].error.tpe(), GenErrorType::Sender);
    assert_eq!((failed[1].document, failed[1].sender), (1, 0));
    assert_eq!(failed[1].error.reason(), "no route");
    dispatcher.record(Ok("late".to_string()));
    assert_eq!(dispatcher.pending(), None);
    assert_eq!(dispatcher.failed().len(), 2);
}

#[test]
fn one_destination_gets_the_documents_one_by_one() {
    let mut dispatcher = Dispatcher::new(4, 1);
    for document in 0..4 {
        assert_eq!(dispatcher.pending(), Some((document, 0)));
        dispatcher.record(Ok(String::new()));
    }
    assert_eq!(dispatcher.pending(), None);
}
