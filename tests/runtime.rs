use hyperion::{Error, Health, Module, Result, Runtime};

struct Demo {
    running: bool,
}

impl Module for Demo {
    fn name(&self) -> &str {
        "demo"
    }
    fn start(&mut self) -> Result<()> {
        self.running = true;
        Ok(())
    }
    fn stop(&mut self) -> Result<()> {
        self.running = false;
        Ok(())
    }
    fn health(&self) -> Health {
        if self.running {
            Health::Healthy
        } else {
            Health::Degraded { reason: "stopped".into() }
        }
    }
}

#[test]
fn runtime_lifecycle() {
    let mut rt = Runtime::new();
    rt.register(Demo { running: false });

    assert!(matches!(rt.overall_health(), Health::Degraded { .. }));

    rt.start_all().unwrap();
    assert!(matches!(rt.overall_health(), Health::Healthy));

    rt.stop_all().unwrap();
    assert!(matches!(rt.overall_health(), Health::Degraded { .. }));
}

struct TestModule {
    name: String,
    is_running: bool,
}

impl TestModule {
    fn new(name: &str) -> Self {
        Self { name: name.to_string(), is_running: false }
    }
}

impl Module for TestModule {
    fn name(&self) -> &str {
        &self.name
    }
    fn start(&mut self) -> Result<()> {
        if self.is_running {
            return Err(Error::Module("Module already running".into()));
        }
        self.is_running = true;
        Ok(())
    }
    fn stop(&mut self) -> Result<()> {
        if !self.is_running {
            return Err(Error::Module("Module not running".into()));
        }
        self.is_running = false;
        Ok(())
    }
    fn health(&self) -> Health {
        if self.is_running {
            Health::Healthy
        } else {
            Health::Unhealthy { reason: "Not running".into() }
        }
    }
}

#[test]
fn module_lifecycle() {
    let mut m = TestModule::new("TestModule");
    assert_eq!(m.name(), "TestModule");
    assert_eq!(m.health(), Health::Unhealthy { reason: "Not running".into() });
    m.start().unwrap();
    assert_eq!(m.health(), Health::Healthy);
    m.stop().unwrap();
    assert_eq!(m.health(), Health::Unhealthy { reason: "Not running".into() });
}

struct Plain;

impl Module for Plain {
    fn name(&self) -> &str {
        "plain"
    }
    fn start(&mut self) -> Result<()> {
        Ok(())
    }
    fn stop(&mut self) -> Result<()> {
        Ok(())
    }
}

#[test]
fn default_health_is_healthy() {
    let mut rt = Runtime::new();
    rt.register(Plain);
    assert_eq!(rt.overall_health(), Health::Healthy);
}

#[test]
fn start_stops_at_first_failure() {
    let mut rt = Runtime::new();
    let mut second = TestModule::new("second");
    second.start().unwrap();
    rt.register(TestModule::new("first"));
    rt.register(second);
    rt.register(TestModule::new("third"));
    assert_eq!(rt.start_all(), Err(Error::Module("Module already running".into())));
    // the first started, the third was never tried
    assert_eq!(
        rt.overall_health(),
        Health::Unhealthy { reason: "Not running".into() }
    );
    assert_eq!(rt.stop_all(), Err(Error::Module("Module not running".into())));
}
