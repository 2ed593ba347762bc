//! The overlay's window.
use window_switcher::overlay::{pump, without_caption, Pump, WS_CAPTION};

#[test]
fn caption_goes_and_the_rest_stays() {
    assert_eq!(without_caption(0xffff_ffff), 0xff3f_ffff);
    assert_eq!(without_caption(WS_CAPTION), 0);
    assert_eq!(without_caption(0x14cf_0000), 0x140f_0000);
    assert_eq!(without_caption(0), 0);
}

#[test]
fn queue_results() {
    assert_eq!(pump(-1), Pump::Fail);
    assert_eq!(pump(0), Pump::Quit);
    assert_eq!(pump(1), Pump::Dispatch);
    assert_eq!(pump(-2), Pump::Dispatch);
}
