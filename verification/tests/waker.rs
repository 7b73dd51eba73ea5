use wasi_tcp::waker::WakerEffect;
use wasi_tcp::{waker_effect, WakerCall};

#[test]
fn effects() {
    let effect = |wakes, makes, frees| WakerEffect { wakes, makes, frees };
    assert_eq!(waker_effect(WakerCall::Clone), effect(false, true, false));
    assert_eq!(waker_effect(WakerCall::Wake), effect(true, false, true));
    assert_eq!(waker_effect(WakerCall::WakeByRef), effect(true, false, false));
    assert_eq!(waker_effect(WakerCall::Drop), effect(false, false, true));
    assert_eq!(waker_effect(WakerCall::PollSocket), effect(false, false, true));
}

#[test]
fn boxes_balance() {
    let calls = [
        WakerCall::Clone,
        WakerCall::PollSocket,
        WakerCall::Clone,
        WakerCall::WakeByRef,
        WakerCall::Wake,
        WakerCall::Drop,
    ];
    let mut boxes: i32 = 1;
    for call in calls {
        let effect = waker_effect(call);
        boxes += effect.makes as i32 - effect.frees as i32;
        assert!(boxes >= 0);
    }
    assert_eq!(boxes, 0);
}
