use cachoeira::console::ConsoleContext;
use cachoeira::engine_system::{EngineSystem, SystemManager, SystemManagerData};

/// A system whose setup and teardown answer as told, and which counts how
/// often each was asked for.
struct Probe {
    name: String,
    setup: Result<(), String>,
    teardown: Result<(), String>,
    setups: u32,
    teardowns: u32,
}

impl Probe {
    fn new(name: &str, setup: Result<(), String>, teardown: Result<(), String>) -> Probe {
        Probe { name: name.to_string(), setup, teardown, setups: 0, teardowns: 0 }
    }
}

impl EngineSystem for Probe {
    fn get_name(&self) -> String {
        self.name.clone()
    }

    fn setup(&mut self) -> Result<(), String> {
        self.setups += 1;
        self.setup.clone()
    }

    fn teardown(&mut self) -> Result<(), String> {
        self.teardowns += 1;
        self.teardown.clone()
    }
}

#[test]
fn console_context_is_a_system() {
    let mut context = ConsoleContext::new();
    assert_eq!(context.get_name(), "ConsoleContext");
    assert_eq!(context.setup(), Ok(()));
    assert_eq!(context.teardown(), Ok(()));
    let mut other = ConsoleContext::new();
    assert_eq!(context.setup_console_vars(&mut other), Ok(()));
}

#[test]
fn system_without_console_variables_adds_none() {
    let mut probe = Probe::new("audio", Ok(()), Ok(()));
    let mut context = ConsoleContext::new();
    assert_eq!(probe.setup_console_vars(&mut context), Ok(()));
    assert_eq!(context.query_var("audio"), None);
}

#[test]
fn system_that_sets_up_is_registered() {
    let mut data = SystemManagerData::new();
    assert!(!data.is_registered(&"audio".to_string()));
    assert_eq!(data.add_system(Probe::new("audio", Ok(()), Ok(()))), Ok(()));
    assert!(data.is_registered(&"audio".to_string()));
    assert!(!data.is_registered(&"video".to_string()));
}

#[test]
fn system_that_fails_to_set_up_is_not_registered() {
    let mut data = SystemManagerData::new();
    assert_eq!(
        data.add_system(Probe::new("audio", Err("no device".to_string()), Ok(()))),
        Err("audio add FAILED! no device".to_string())
    );
    assert!(!data.is_registered(&"audio".to_string()));
}

#[test]
fn enroll_keeps_the_system_on_success_only() {
    let mut data = SystemManagerData::new();
    assert_eq!(
        data.enroll("a".to_string(), Probe::new("a", Ok(()), Ok(())), Err("x".to_string())),
        Err("a add FAILED! x".to_string())
    );
    assert!(!data.is_registered(&"a".to_string()));
    assert_eq!(
        data.enroll("a".to_string(), Probe::new("a", Ok(()), Ok(())), Ok(())),
        Ok(())
    );
    assert!(data.is_registered(&"a".to_string()));
}

#[test]
fn removing_an_unknown_name_fails() {
    let mut data: SystemManagerData<Probe> = SystemManagerData::new();
    assert_eq!(
        data.remove_system_by_name("audio".to_string()),
        Err("audio not registered".to_string())
    );
    assert_eq!(
        data.remove_system(&Probe::new("video", Ok(()), Ok(()))),
        Err("video not registered".to_string())
    );
}

#[test]
fn system_that_tears_down_is_dropped() {
    let mut data = SystemManagerData::new();
    assert_eq!(data.add_system(Probe::new("audio", Ok(()), Ok(()))), Ok(()));
    assert_eq!(data.add_system(Probe::new("video", Ok(()), Ok(()))), Ok(()));
    assert_eq!(data.add_system(Probe::new("input", Ok(()), Ok(()))), Ok(()));
    assert_eq!(data.remove_system_by_name("video".to_string()), Ok(()));
    assert!(data.is_registered(&"audio".to_string()));
    assert!(!data.is_registered(&"video".to_string()));
    assert!(data.is_registered(&"input".to_string()));
    assert_eq!(
        data.remove_system_by_name("video".to_string()),
        Err("video not registered".to_string())
    );
    assert_eq!(data.remove_system(&Probe::new("input", Ok(()), Ok(()))), Ok(()));
    assert!(!data.is_registered(&"input".to_string()));
    assert!(data.is_registered(&"audio".to_string()));
}

#[test]
fn system_that_fails_to_tear_down_stays() {
    let mut data = SystemManagerData::new();
    assert_eq!(
        data.add_system(Probe::new("audio", Ok(()), Err("busy".to_string()))),
        Ok(())
    );
    assert_eq!(
        data.remove_system_by_name("audio".to_string()),
        Err("audio removal FAILED! busy".to_string())
    );
    assert!(data.is_registered(&"audio".to_string()));
}

#[test]
fn release_drops_the_system_on_success_only() {
    let mut data = SystemManagerData::new();
    assert_eq!(data.add_system(Probe::new("audio", Ok(()), Ok(()))), Ok(()));
    assert_eq!(
        data.release("audio".to_string(), Err("busy".to_string())),
        Err("audio removal FAILED! busy".to_string())
    );
    assert!(data.is_registered(&"audio".to_string()));
    assert_eq!(data.release("audio".to_string(), Ok(())), Ok(()));
    assert!(!data.is_registered(&"audio".to_string()));
}

#[test]
fn registering_under_a_taken_name_replaces() {
    let mut data = SystemManagerData::new();
    assert_eq!(
        data.add_system(Probe::new("audio", Ok(()), Err("first".to_string()))),
        Ok(())
    );
    assert_eq!(
        data.add_system(Probe::new("audio", Ok(()), Err("second".to_string()))),
        Ok(())
    );
    assert_eq!(
        data.remove_system_by_name("audio".to_string()),
        Err("audio removal FAILED! second".to_string())
    );
}

#[test]
fn manager_registers_and_unregisters() {
    let mut manager = SystemManager::new();
    assert_eq!(manager.register_system(Probe::new("audio", Ok(()), Ok(()))), Ok(()));
    assert_eq!(
        manager.register_system(Probe::new("video", Err("no screen".to_string()), Ok(()))),
        Err("video add FAILED! no screen".to_string())
    );
    assert!(manager.is_registered(&"audio".to_string()));
    assert!(!manager.is_registered(&"video".to_string()));
    assert_eq!(
        manager.unregister_system(&Probe::new("video", Ok(()), Ok(()))),
        Err("video not registered".to_string())
    );
    assert_eq!(manager.unregister_system(&Probe::new("audio", Ok(()), Ok(()))), Ok(()));
    assert!(!manager.is_registered(&"audio".to_string()));
}
