use std::sync::atomic::{AtomicUsize, Ordering};
use std::sync::Arc;

use microps::protocol::EtherType;
use microps::{
    Device, DeviceBackend, DeviceError, DeviceKind, DeviceMeta, DeviceRegistry, InputQueue,
    LoopbackDevice, Random, Stack, Time,
};

struct TestPlatform;

impl Random for TestPlatform {
    type Error = core::convert::Infallible;

    fn random16() -> Result<u16, Self::Error> {
        Ok(0)
    }
}

impl Time for TestPlatform {
    fn monotonic_time_microseconds() -> u64 {
        0
    }
}

#[derive(Debug, Clone)]
struct CountingBackend {
    open_calls: Arc<AtomicUsize>,
    close_calls: Arc<AtomicUsize>,
    output_calls: Arc<AtomicUsize>,
}

impl CountingBackend {
    fn new() -> (Self, Arc<AtomicUsize>, Arc<AtomicUsize>, Arc<AtomicUsize>) {
        let open_calls = Arc::new(AtomicUsize::new(0));
        let close_calls = Arc::new(AtomicUsize::new(0));
        let output_calls = Arc::new(AtomicUsize::new(0));
        (
            Self {
                open_calls: Arc::clone(&open_calls),
                close_calls: Arc::clone(&close_calls),
                output_calls: Arc::clone(&output_calls),
            },
            open_calls,
            close_calls,
            output_calls,
        )
    }
}

impl DeviceBackend for CountingBackend {
    fn open(&mut self) -> Result<(), DeviceError> {
        self.open_calls.fetch_add(1, Ordering::SeqCst);
        Ok(())
    }
    fn close(&mut self) -> Result<(), DeviceError> {
        self.close_calls.fetch_add(1, Ordering::SeqCst);
        Ok(())
    }
    fn output(
        &mut self,
        _: u16,
        _: &[u8],
        _: Option<&[u8]>,
        _: &mut InputQueue,
    ) -> Result<(), DeviceError> {
        self.output_calls.fetch_add(1, Ordering::SeqCst);
        Ok(())
    }
    fn input(&mut self, _: &mut InputQueue) -> Result<(), DeviceError> {
        Ok(())
    }
}

#[test]
fn registry_returns_a_stable_device_key() {
    let mut registry = DeviceRegistry::new();
    let (backend, _, _, _) = CountingBackend::new();
    let handle = registry.register(Device::new(
        DeviceMeta::new("net0", DeviceKind::Dummy, 128),
        Box::new(backend),
    ));
    assert_eq!(registry.get(handle).unwrap().meta().name(), "net0");
}

#[test]
fn device_enforces_state_and_mtu() {
    let (backend, open_calls, close_calls, output_calls) = CountingBackend::new();
    let mut device = Device::new(DeviceMeta::new("net0", DeviceKind::Dummy, 4), Box::new(backend));
    let mut queue = InputQueue::new();
    assert!(matches!(
        device.output(EtherType::Ipv4.value(), &[1], None, &mut queue),
        Err(DeviceError::NotOpen)
    ));
    device.open().unwrap();
    assert!(matches!(
        device.output(EtherType::Ipv4.value(), &[1, 2, 3, 4, 5], None, &mut queue),
        Err(DeviceError::PayloadTooLarge { mtu: 4, len: 5 })
    ));
    device
        .output(EtherType::Ipv4.value(), &[1, 2, 3, 4], None, &mut queue)
        .unwrap();
    device.close().unwrap();
    assert_eq!(open_calls.load(Ordering::SeqCst), 1);
    assert_eq!(close_calls.load(Ordering::SeqCst), 1);
    assert_eq!(output_calls.load(Ordering::SeqCst), 1);
}

#[test]
fn loopback_transfers_output_to_the_input_queue() {
    let mut stack = Stack::new();
    let device = stack.devices.register(Device::new(
        DeviceMeta::new("net0", DeviceKind::Loopback, 65_535),
        Box::new(LoopbackDevice::new()),
    ));
    stack.open_all().unwrap();
    let looped = stack
        .devices
        .output(device, EtherType::Ipv4.value(), &[1, 2, 3], None, &mut stack.input_queue)
        .unwrap();
    assert!(looped);
    assert_eq!(stack.input_queue.len(), 1);
    stack.soft_input::<TestPlatform, TestPlatform>().unwrap();
    assert_eq!(stack.input_queue.len(), 0);
    stack.close_all();
}

#[test]
fn open_all_rolls_back_when_a_device_is_already_open() {
    let mut registry = DeviceRegistry::new();
    assert!(registry.open_all().is_ok());
    let first = registry.register(Device::new(
        DeviceMeta::new("lo0", DeviceKind::Loopback, 1500),
        Box::new(LoopbackDevice::new()),
    ));
    let second = registry.register(Device::new(
        DeviceMeta::new("lo1", DeviceKind::Loopback, 1500),
        Box::new(LoopbackDevice::new()),
    ));
    assert!(registry.open_all().is_ok());
    assert!(registry.get(first).unwrap().state().is_up());
    assert!(registry.get(second).unwrap().state().is_up());
    assert_eq!(registry.open_all(), Err(DeviceError::AlreadyOpen));
    assert!(registry.get(first).unwrap().state().is_up());
    assert!(registry.get(second).unwrap().state().is_up());
    registry.close_all();
    assert!(!registry.get(first).unwrap().state().is_up());
    assert!(!registry.get(second).unwrap().state().is_up());
}

struct RefusingBackend;

impl DeviceBackend for RefusingBackend {
    fn open(&mut self) -> Result<(), DeviceError> {
        Err(DeviceError::Backend { message: "no carrier".to_string() })
    }
    fn close(&mut self) -> Result<(), DeviceError> {
        Ok(())
    }
    fn output(
        &mut self,
        _: u16,
        _: &[u8],
        _: Option<&[u8]>,
        _: &mut InputQueue,
    ) -> Result<(), DeviceError> {
        Err(DeviceError::Backend { message: "queue full".to_string() })
    }
    fn input(&mut self, _: &mut InputQueue) -> Result<(), DeviceError> {
        Ok(())
    }
}

#[test]
fn device_passes_on_what_its_backend_answers() {
    let mut device =
        Device::new(DeviceMeta::new("net0", DeviceKind::Dummy, 64), Box::new(RefusingBackend));
    assert_eq!(
        device.open(),
        Err(DeviceError::Backend { message: "no carrier".to_string() })
    );
    assert!(!device.state().is_up());

    let mut registry = DeviceRegistry::new();
    let key = registry.register(Device::new(
        DeviceMeta::new("net1", DeviceKind::Dummy, 64),
        Box::new(RefusingBackend),
    ));
    assert_eq!(
        registry.open_all(),
        Err(DeviceError::Backend { message: "no carrier".to_string() })
    );
    assert!(!registry.get(key).unwrap().state().is_up());
}

struct OpenRefusingOutput;
impl DeviceBackend for OpenRefusingOutput {
    fn open(&mut self) -> Result<(), DeviceError> {
        Ok(())
    }
    fn close(&mut self) -> Result<(), DeviceError> {
        Ok(())
    }
    fn output(
        &mut self,
        _: u16,
        _: &[u8],
        _: Option<&[u8]>,
        _: &mut InputQueue,
    ) -> Result<(), DeviceError> {
        Err(DeviceError::Backend { message: "queue full".to_string() })
    }
    fn input(&mut self, _: &mut InputQueue) -> Result<(), DeviceError> {
        Ok(())
    }
}

#[test]
fn device_output_gives_the_backend_answer() {
    let mut device = Device::new(
        DeviceMeta::new("net0", DeviceKind::Dummy, 64),
        Box::new(OpenRefusingOutput),
    );
    let mut queue = InputQueue::new();
    device.open().unwrap();
    assert_eq!(
        device.output(EtherType::Ipv4.value(), &[1, 2, 3], None, &mut queue),
        Err(DeviceError::Backend { message: "queue full".to_string() })
    );
    assert_eq!(queue.len(), 0);
}
