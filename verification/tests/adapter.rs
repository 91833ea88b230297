use std::cell::Cell;
use std::rc::Rc;

use bar_core::{Component, ComponentCreator, ComponentError, ErrorKind, NetworkUsage};

/// A producer that records how often it is converted into a stream.
struct Probe {
    fail_init: bool,
    conversions: Rc<Cell<u32>>,
}

impl Component for Probe {
    type Stream = ();

    // the specification-level conversion result; never called at run time
    fn stream_spec(self) -> () {
        ()
    }

    fn init(&mut self) -> Result<(), ComponentError> {
        if self.fail_init {
            Err(ComponentError::new(
                ErrorKind::Configuration,
                "probe was told to fail".to_string(),
            ))
        } else {
            Ok(())
        }
    }

    fn stream(self) -> () {
        self.conversions.set(self.conversions.get() + 1);
    }
}

#[test]
fn a_failed_initialization_never_reaches_the_stream() {
    let conversions = Rc::new(Cell::new(0));
    let probe = Probe { fail_init: true, conversions: conversions.clone() };
    let created = probe.create();
    assert!(created.is_err());
    assert_eq!(conversions.get(), 0);
}

#[test]
fn a_successful_initialization_converts_exactly_once() {
    let conversions = Rc::new(Cell::new(0));
    let probe = Probe { fail_init: false, conversions: conversions.clone() };
    let created = probe.create();
    assert!(created.is_ok());
    assert_eq!(conversions.get(), 1);
}

#[test]
fn the_initialization_error_is_wrapped_with_context() {
    let conversions = Rc::new(Cell::new(0));
    let probe = Probe { fail_init: true, conversions };
    let error = probe.create().err().expect("initialization fails");
    assert_eq!(error.kind, ErrorKind::Configuration);
    assert_eq!(
        error.context,
        vec![
            "Failed to initialize component".to_string(),
            "probe was told to fail".to_string(),
        ]
    );
}

#[test]
fn chaining_keeps_the_kind_and_prepends_the_message() {
    let error = ComponentError::new(ErrorKind::Timer, "tick lost".to_string());
    let chained = error.chain("while sampling".to_string());
    assert_eq!(chained.kind, ErrorKind::Timer);
    assert_eq!(
        chained.context,
        vec!["while sampling".to_string(), "tick lost".to_string()]
    );
}

#[test]
fn an_unknown_interface_is_a_configuration_error() {
    let mut conf = NetworkUsage::default();
    conf.interface = "no_such_interface_0".to_string();
    let error = conf.init().err().expect("the interface does not exist");
    assert_eq!(error.kind, ErrorKind::Configuration);
}

#[test]
fn an_unknown_interface_produces_no_stream() {
    let mut conf = NetworkUsage::default();
    conf.interface = "no_such_interface_0".to_string();
    let created = conf.create();
    let error = created.err().expect("creation fails before any stream exists");
    assert_eq!(error.kind, ErrorKind::Configuration);
    assert_eq!(error.context[0], "Failed to initialize component");
}

#[test]
fn an_update_carries_the_producer_output() {
    let update = bar_core::ComponentUpdate {
        slot: bar_core::Slot::Center,
        index: 2,
        id: 7,
        value: "2.00 KiB/s".to_string(),
    };
    assert!(matches!(update.slot, bar_core::Slot::Center));
    assert_eq!(update.index, 2);
    assert_eq!(update.id, 7);
    assert_eq!(update.value, "2.00 KiB/s");
}

#[test]
fn every_error_kind_can_be_reported() {
    for kind in [
        ErrorKind::Configuration,
        ErrorKind::Spawn,
        ErrorKind::Io,
        ErrorKind::Timer,
    ] {
        let error = ComponentError::new(kind, "something went wrong".to_string());
        assert_eq!(error.kind, kind);
        assert_eq!(error.context, vec!["something went wrong".to_string()]);
    }
}

#[test]
fn a_stream_error_is_wrapped_for_reporting() {
    let error = ComponentError::new(ErrorKind::Io, "read failed".to_string());
    let wrapped = bar_core::wrap_stream_error(error);
    assert_eq!(wrapped.kind, ErrorKind::Io);
    assert_eq!(
        wrapped.context,
        vec!["Component raised an error".to_string(), "read failed".to_string()]
    );
}
