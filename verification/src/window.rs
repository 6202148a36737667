//! What a window of the platform can do, by capability, and the manager
//! that owns the windows.
//!
//! The capabilities are traits for a platform back end to implement. Where a
//! trait offers a method with a body, the body is what a back end gets that
//! has nothing better to say. A contract on a trait's method holds of every
//! back end, so the methods that only answer for a back end without the
//! capability carry none: what they answer is the back end's affair. The
//! methods that are built from other methods of their trait say how: which
//! methods they ask, with what, and what they make of the answers.
use vstd::prelude::*;
use crate::engine_system::EngineSystem;

verus! {

/// The name of the one monitor that a back end has which cannot tell
/// monitors apart: `Default` for monitor 1, and nothing for any other.
pub fn default_monitor_name(id: isize) -> (name: Option<String>)
    ensures
        id == 1 ==> (name matches Some(text) && text@ == "Default"@),
        id != 1 ==> name is None,
{
    if id == 1 {
        Some("Default".to_owned())
    } else {
        None
    }
}

/// Choosing a monitor on a back end that cannot tell monitors apart:
/// monitor 1 is there, any other is refused as `Invalid monitor`.
pub fn default_set_monitor(id: isize) -> (outcome: Result<(), String>)
    ensures
        id == 1 ==> outcome == Ok::<(), String>(()),
        id != 1 ==> (outcome matches Err(text) && text@ == "Invalid monitor"@),
{
    if id == 1 {
        Ok(())
    } else {
        Err("Invalid monitor".to_owned())
    }
}

/// The title bar and border of a window.
pub trait Decorations {
    /// Sets the text of the title bar.
    fn set_title(&mut self, title: String);

    /// Whether the window can have decorations at all.
    fn can_display(&self) -> bool;

    /// Whether decorations can be switched on and off.
    fn can_set_display(&self) -> bool;

    /// Whether decorations are shown.
    fn is_on(&self) -> bool;

    /// Shows or hides decorations and tells whether they are shown now.
    fn set_display(&mut self, display: bool) -> Result<bool, String>;

    /// Hides decorations that are shown and shows those that are hidden:
    /// asks `is_on`, then asks `set_display` for the opposite, and answers
    /// what `set_display` answers.
    fn toggle_display(&mut self) -> (outcome: Result<bool, String>)
        ensures
            exists|on: bool, display: bool, during: &mut Self|
                display == !on && #[trigger] call_ensures(Self::is_on, (&*old(self),), on)
                    && #[trigger] call_ensures(Self::set_display, (during, display), outcome)
                    && &*during == &*old(self) && &*final(during) == &*final(self),
    {
        let on = self.is_on();
        self.set_display(!on)
    }
}

/// The place and size of a window on the screen.
pub trait Frame {
    /// Sets the size of the window's content.
    fn set_size(&mut self, width: u32, height: u32) -> Result<(), String>;

    /// Moves the window.
    fn set_position(&mut self, x: i32, y: i32) -> Result<(), String>;

    /// Where the window is, border included.
    fn get_position(&self) -> Option<(i32, i32)> {
        None
    }

    /// Where the window's content is.
    fn get_inner_position(&self) -> Option<(i32, i32)> {
        None
    }

    /// The size of the window, border included.
    fn get_size(&self) -> Option<(u32, u32)> {
        None
    }

    /// The size of the window's content.
    fn get_inner_size(&self) -> Option<(u32, u32)> {
        None
    }

    /// Sets the size, then the position, and answers what `set_position`
    /// answers. Where the size cannot be set the window is not moved, and
    /// the answer is the failure of `set_size`.
    fn set_geometry(&mut self, width: u32, height: u32, x: i32, y: i32) -> (outcome: Result<
        (),
        String,
    >)
        ensures
            exists|sized: Result<(), String>, first: &mut Self| #[trigger]
                call_ensures(Self::set_size, (first, width, height), sized)
                    && &*first == &*old(self) && match sized {
                    Ok(_) => exists|second: &mut Self| #[trigger]
                        call_ensures(Self::set_position, (second, x, y), outcome)
                            && &*second == &*final(first) && &*final(second) == &*final(self),
                    Err(size_failed) => outcome == Err::<(), String>(size_failed)
                        && &*final(first) == &*final(self),
                },
    {
        match self.set_size(width, height) {
            Ok(_) => self.set_position(x, y),
            Err(size_failed) => Err(size_failed),
        }
    }

    /// Whether the user can resize the window.
    fn is_resizable(&self) -> bool {
        false
    }

    /// Makes the window as large as the screen allows, or undoes that.
    fn set_maximized(&mut self, maximized: bool) -> Result<(), String>;

    /// Whether the window is on the screen.
    fn is_shown(&self) -> bool {
        false
    }

    /// Puts the window on the screen or takes it off.
    fn show(&mut self, do_show: bool);
}

/// A window that can fill a whole monitor.
pub trait Fullscreen {
    /// Makes the window fill its monitor, or undoes that.
    fn set(&mut self, fullscreen: bool) -> Result<bool, String>;

    /// Whether the window fills its monitor.
    fn is_fullscreen(&self) -> bool;

    /// Undoes full screen where it is on, and switches it on where it is
    /// off: asks `is_fullscreen`, then asks `set` for the opposite, and
    /// answers what `set` answers.
    fn toggle(&mut self) -> (outcome: Result<bool, String>)
        ensures
            exists|on: bool, fullscreen: bool, during: &mut Self|
                fullscreen == !on && #[trigger] call_ensures(
                    Self::is_fullscreen,
                    (&*old(self),),
                    on,
                ) && #[trigger] call_ensures(Self::set, (during, fullscreen), outcome) && &*during
                    == &*old(self) && &*final(during) == &*final(self),
    {
        let on = self.is_fullscreen();
        self.set(!on)
    }

    /// The number of monitors.
    fn get_monitors_count(&self) -> isize {
        1
    }

    /// The name of monitor `id`.
    fn get_monitor_name(&self, id: isize) -> Option<String> {
        default_monitor_name(id)
    }

    /// Moves the window to monitor `id`.
    fn set_monitor(&mut self, id: isize) -> Result<(), String> {
        default_set_monitor(id)
    }
}

/// Control over the mouse cursor while it is over a window.
pub trait MouseCursorControl {
    /// Where the cursor is.
    fn get_cursor_pos(&self) -> Option<(i32, i32)> {
        None
    }

    /// Whether the cursor is drawn.
    fn is_cursor_visible(&self) -> bool {
        false
    }

    /// Draws or hides the cursor.
    fn set_cursor_visible(&mut self, visible: bool) -> Result<(), String>;
}

/// A window as a set of capabilities. One that lacks a capability answers
/// with nothing, which is what each method does unless a back end says
/// otherwise.
pub trait Window {
    /// The decorations of the window.
    fn as_decorations(self: Box<Self>) -> Option<Box<dyn Decorations>> {
        None
    }

    /// The window as one that can fill a monitor.
    fn as_fullscreen(self: Box<Self>) -> Option<Box<dyn Fullscreen>> {
        None
    }

    /// The frame of the window.
    fn as_frame(self: Box<Self>) -> Option<Box<dyn Frame>> {
        None
    }

    /// The window's control over the mouse cursor.
    fn as_mouse_cursor_control(self: Box<Self>) -> Option<Box<dyn MouseCursorControl>> {
        None
    }
}

/// What is needed to open a window.
pub trait WindowBuilder {
    /// Opens the window.
    fn build(self: Box<Self>) -> Result<Box<dyn Window>, String>;
}

/// The owner of the windows that are open.
pub struct WindowManager {
    windows: Vec<Box<dyn Window>>,
}

impl WindowManager {
    /// The number of windows that are open.
    pub closed spec fn count(&self) -> nat {
        self.windows@.len()
    }

    /// A manager without windows.
    pub fn new() -> (manager: WindowManager)
        ensures
            manager.count() == 0,
    {
        WindowManager { windows: Vec::new() }
    }

    /// The number of windows that are open.
    pub fn window_count(&self) -> (n: usize)
        ensures
            n == self.count(),
    {
        self.windows.len()
    }
}

impl EngineSystem for WindowManager {
    fn get_name(&self) -> (name: String)
        ensures
            name@ == "WindowManager"@,
    {
        "WindowManager".to_owned()
    }

    /// Setting the manager up always succeeds and leaves it without
    /// windows.
    fn setup(&mut self) -> (outcome: Result<(), String>)
        ensures
            final(self).count() == 0,
            outcome == Ok::<(), String>(()),
    {
        self.windows = Vec::new();
        Ok(())
    }

    /// Tearing the manager down always succeeds and leaves it without
    /// windows.
    fn teardown(&mut self) -> (outcome: Result<(), String>)
        ensures
            final(self).count() == 0,
            outcome == Ok::<(), String>(()),
    {
        self.windows.clear();
        Ok(())
    }
}

} // verus!
