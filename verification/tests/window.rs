use cachoeira::engine_system::EngineSystem;
use cachoeira::window::{
    default_monitor_name, default_set_monitor, Decorations, Frame, Fullscreen,
    MouseCursorControl, Window, WindowManager,
};

/// A window that records what it is told and uses every method the traits
/// offer with a body.
struct Plain {
    decorated: bool,
    fullscreen: bool,
    size: (u32, u32),
    position: (i32, i32),
    refuse_size: bool,
}

impl Plain {
    fn new() -> Plain {
        Plain {
            decorated: true,
            fullscreen: false,
            size: (0, 0),
            position: (0, 0),
            refuse_size: false,
        }
    }
}

impl Decorations for Plain {
    fn set_title(&mut self, _title: String) {}

    fn can_display(&self) -> bool {
        true
    }

    fn can_set_display(&self) -> bool {
        true
    }

    fn is_on(&self) -> bool {
        self.decorated
    }

    fn set_display(&mut self, display: bool) -> Result<bool, String> {
        self.decorated = display;
        Ok(display)
    }
}

impl Frame for Plain {
    fn set_size(&mut self, width: u32, height: u32) -> Result<(), String> {
        if self.refuse_size {
            Err("no size".to_string())
        } else {
            self.size = (width, height);
            Ok(())
        }
    }

    fn set_position(&mut self, x: i32, y: i32) -> Result<(), String> {
        self.position = (x, y);
        Ok(())
    }

    fn set_maximized(&mut self, _maximized: bool) -> Result<(), String> {
        Err("not here".to_string())
    }

    fn show(&mut self, _do_show: bool) {}
}

impl Fullscreen for Plain {
    fn set(&mut self, fullscreen: bool) -> Result<bool, String> {
        self.fullscreen = fullscreen;
        Ok(fullscreen)
    }

    fn is_fullscreen(&self) -> bool {
        self.fullscreen
    }
}

impl MouseCursorControl for Plain {
    fn set_cursor_visible(&mut self, _visible: bool) -> Result<(), String> {
        Ok(())
    }
}

impl Window for Plain {}

#[test]
fn default_monitor_is_monitor_one() {
    assert_eq!(default_monitor_name(1), Some("Default".to_string()));
    assert_eq!(default_monitor_name(0), None);
    assert_eq!(default_monitor_name(2), None);
    assert_eq!(default_monitor_name(-1), None);
    assert_eq!(default_set_monitor(1), Ok(()));
    assert_eq!(default_set_monitor(0), Err("Invalid monitor".to_string()));
    assert_eq!(default_set_monitor(isize::MAX), Err("Invalid monitor".to_string()));
}

#[test]
fn toggling_decorations_flips_them() {
    let mut window = Plain::new();
    assert_eq!(window.toggle_display(), Ok(false));
    assert!(!window.is_on());
    assert_eq!(window.toggle_display(), Ok(true));
    assert!(window.is_on());
}

#[test]
fn toggling_fullscreen_flips_it() {
    let mut window = Plain::new();
    assert_eq!(window.toggle(), Ok(true));
    assert!(window.is_fullscreen());
    assert_eq!(window.toggle(), Ok(false));
    assert!(!window.is_fullscreen());
}

#[test]
fn fullscreen_defaults_know_one_monitor() {
    let mut window = Plain::new();
    assert_eq!(window.get_monitors_count(), 1);
    assert_eq!(window.get_monitor_name(1), Some("Default".to_string()));
    assert_eq!(window.get_monitor_name(2), None);
    assert_eq!(window.set_monitor(1), Ok(()));
    assert_eq!(window.set_monitor(3), Err("Invalid monitor".to_string()));
}

#[test]
fn geometry_sets_size_then_position() {
    let mut window = Plain::new();
    assert_eq!(window.set_geometry(640, 480, -3, 9), Ok(()));
    assert_eq!(window.size, (640, 480));
    assert_eq!(window.position, (-3, 9));
}

#[test]
fn geometry_does_not_move_a_window_it_cannot_size() {
    let mut window = Plain::new();
    window.refuse_size = true;
    assert_eq!(window.set_geometry(640, 480, -3, 9), Err("no size".to_string()));
    assert_eq!(window.size, (0, 0));
    assert_eq!(window.position, (0, 0));
}

#[test]
fn frame_and_cursor_defaults_know_nothing() {
    let window = Plain::new();
    assert_eq!(window.get_position(), None);
    assert_eq!(window.get_inner_position(), None);
    assert_eq!(window.get_size(), None);
    assert_eq!(window.get_inner_size(), None);
    assert!(!window.is_resizable());
    assert!(!window.is_shown());
    assert_eq!(window.get_cursor_pos(), None);
    assert!(!window.is_cursor_visible());
}

#[test]
fn window_without_capabilities_offers_none() {
    assert!(Box::new(Plain::new()).as_decorations().is_none());
    assert!(Box::new(Plain::new()).as_fullscreen().is_none());
    assert!(Box::new(Plain::new()).as_frame().is_none());
    assert!(Box::new(Plain::new()).as_mouse_cursor_control().is_none());
}

#[test]
fn window_manager_is_a_system_without_windows() {
    let mut manager = WindowManager::new();
    assert_eq!(manager.window_count(), 0);
    assert_eq!(manager.get_name(), "WindowManager");
    assert_eq!(manager.setup(), Ok(()));
    assert_eq!(manager.window_count(), 0);
    assert_eq!(manager.teardown(), Ok(()));
    assert_eq!(manager.window_count(), 0);
}
