//! An immediate-mode widget context: pointer and keyboard state collected
//! from events, keyboard focus in the order widgets are drawn, and the
//! widgets' responses.

use vstd::prelude::*;

use crate::graphics::color::Color;
use crate::graphics::framebuffer::FrameBuffer;
use crate::graphics::rect::Rect;
use crate::platform::{Key, MouseButton};
use crate::support::{string_pop, string_push};
use vstd::string::{StrSliceExecFns, StringExecFns};

verus! {

/// Scale of the bitmap font in widgets.
pub const TEXT_SCALE: u32 = 2;

/// The input events that widgets react to.
#[derive(Clone, Copy, Debug, PartialEq, Eq, Structural)]
pub enum UiEvent {
    MouseMove { x: i32, y: i32 },
    MouseDown { button: MouseButton },
    MouseUp { button: MouseButton },
    KeyDown { key: Key },
    TextInput { character: char },
    Other,
}

pub struct UiContext {
    pub pointer: (i32, i32),
    pub left_down: bool,
    /// The left button went down during this frame.
    pub mouse_pressed: bool,
    pub backspace_pressed: bool,
    /// Enter or Space went down during this frame.
    pub activate_pressed: bool,
    /// Text typed during this frame.
    pub pending_text: String,
    pub focused: Option<u32>,
    /// Focusable widgets in the order they were drawn this frame.
    pub focus_order: Vec<u32>,
}

/// A widget context as plain values.
#[verifier::ext_equal]
pub struct UiView {
    pub pointer: (i32, i32),
    pub left_down: bool,
    pub mouse_pressed: bool,
    pub backspace_pressed: bool,
    pub activate_pressed: bool,
    pub pending_text: Seq<char>,
    pub focused: Option<u32>,
    pub focus_order: Seq<u32>,
}

impl View for UiContext {
    type V = UiView;

    open spec fn view(&self) -> UiView {
        UiView {
            pointer: self.pointer,
            left_down: self.left_down,
            mouse_pressed: self.mouse_pressed,
            backspace_pressed: self.backspace_pressed,
            activate_pressed: self.activate_pressed,
            pending_text: self.pending_text@,
            focused: self.focused,
            focus_order: self.focus_order@,
        }
    }
}

impl Default for UiContext {
    fn default() -> (ui: UiContext)
        ensures
            ui@ == (UiView {
                pointer: (0, 0),
                left_down: false,
                mouse_pressed: false,
                backspace_pressed: false,
                activate_pressed: false,
                pending_text: Seq::empty(),
                focused: None,
                focus_order: Seq::empty(),
            }),
    {
        UiContext {
            pointer: (0, 0),
            left_down: false,
            mouse_pressed: false,
            backspace_pressed: false,
            activate_pressed: false,
            pending_text: String::new(),
            focused: None,
            focus_order: Vec::new(),
        }
    }
}

/// A control character: general category Cc, U+0000-U+001F and
/// U+007F-U+009F.
pub open spec fn is_control_char(character: char) -> bool {
    let value = character as u32;
    value <= 0x1f || (0x7f <= value && value <= 0x9f)
}

pub(crate) fn is_control(character: char) -> (control: bool)
    ensures
        control == is_control_char(character),
{
    let value = character as u32;
    value <= 0x1f || (0x7f <= value && value <= 0x9f)
}

impl UiView {
    /// Focus after Tab: the widget drawn after the focused one, wrapping
    /// around; the first one when nothing, or nothing drawn, has focus.
    pub open spec fn focus_moved(self) -> UiView {
        if self.focus_order.len() == 0 {
            self
        } else {
            let index = match self.focused {
                Some(focused) => match self.focus_order.index_of_first(focused) {
                    Some(position) => (position + 1) % (self.focus_order.len() as int),
                    None => 0,
                },
                None => 0,
            };
            UiView { focused: Some(self.focus_order[index]), ..self }
        }
    }

    /// The context after `event`.
    pub open spec fn handled(self, event: UiEvent) -> UiView {
        match event {
            UiEvent::MouseMove { x, y } => UiView { pointer: (x, y), ..self },
            UiEvent::MouseDown { button } => if button == MouseButton::Left {
                UiView { left_down: true, mouse_pressed: true, ..self }
            } else {
                self
            },
            UiEvent::MouseUp { button } => if button == MouseButton::Left {
                UiView { left_down: false, ..self }
            } else {
                self
            },
            UiEvent::KeyDown { key } => match key {
                Key::Tab => self.focus_moved(),
                Key::Enter => UiView { activate_pressed: true, ..self },
                Key::Space => UiView { activate_pressed: true, ..self },
                Key::Backspace => UiView { backspace_pressed: true, ..self },
                _ => self,
            },
            UiEvent::TextInput { character } => if !is_control_char(character) {
                UiView { pending_text: self.pending_text.push(character), ..self }
            } else {
                self
            },
            UiEvent::Other => self,
        }
    }

    /// The focus order once `id` is registered: appended unless present.
    pub open spec fn registered(self, id: u32) -> UiView {
        if self.focus_order.contains(id) {
            self
        } else {
            UiView { focus_order: self.focus_order.push(id), ..self }
        }
    }

    pub open spec fn hovers(self, rect: Rect) -> bool {
        rect.has_point(self.pointer.0 as int, self.pointer.1 as int)
    }
}

/// A pixel after a widget box is drawn over it: `fill` over the whole of
/// `rect`, then `border` over its outline.
pub open spec fn boxed_pixel(pixel: u32, rect: Rect, x: int, y: int, fill: Color, border: Color) -> u32 {
    let filled = if rect.has_point(x, y) { fill.over(Color(pixel)).0 } else { pixel };
    if rect.on_border(x, y) { border.over(Color(filled)).0 } else { filled }
}

/// `framebuffer` is `before` with a box drawn in `rect`.
pub open spec fn boxed(before: FrameBuffer, after: FrameBuffer, rect: Rect, fill: Color, border: Color) -> bool {
    &&& after.width == before.width
    &&& after.height == before.height
    &&& after.pixels@.len() == before.pixels@.len()
    &&& forall|x: int, y: int|
        before.in_bounds(x, y) ==> #[trigger] after.pixels@[before.index_of(x, y)] == boxed_pixel(
            before.pixels@[before.index_of(x, y)],
            rect,
            x,
            y,
            fill,
            border,
        )
}

/// The characters a text field keeps for `value` after one frame: the last
/// one removed on Backspace, then typed characters appended while fewer than
/// `limit` are there.
pub open spec fn edited_text(value: Seq<char>, typed: Seq<char>, backspace: bool, limit: int) -> Seq<char> {
    let kept = if backspace && value.len() > 0 { value.drop_last() } else { value };
    let room = if limit > kept.len() { limit - kept.len() } else { 0 };
    let taken = if room < typed.len() { room } else { typed.len() as int };
    kept + typed.subrange(0, taken)
}

/// How many characters a text field of width `width` shows: six pixels per
/// character at the widget scale after 16 pixels of margin, at least one.
pub open spec fn field_capacity(width: u32) -> int {
    let inner = if width >= 16 { width - 16 } else { 0 };
    let fits = inner / (6 * TEXT_SCALE) as int;
    if fits >= 1 { fits } else { 1 }
}

/// Fills `rect` with `fill` and outlines it with `border`.
fn draw_box(framebuffer: &mut FrameBuffer, rect: Rect, fill: Color, border: Color)
    requires
        old(framebuffer).wf(),
    ensures
        boxed(*old(framebuffer), *final(framebuffer), rect, fill, border),
{
    let ghost before = *framebuffer;
    framebuffer.fill_rect(rect, fill);
    let ghost middle = *framebuffer;
    framebuffer.draw_rect(rect, border);
    assert forall|x: int, y: int| before.in_bounds(x, y) implies #[trigger] framebuffer.pixels@[before.index_of(x, y)]
        == boxed_pixel(before.pixels@[before.index_of(x, y)], rect, x, y, fill, border) by {
        assert(middle.index_of(x, y) == before.index_of(x, y));
        assert(middle.in_bounds(x, y));
        assert(middle.pixels@[before.index_of(x, y)] == if rect.has_point(x, y) {
            fill.over(Color(before.pixels@[before.index_of(x, y)])).0
        } else {
            before.pixels@[before.index_of(x, y)]
        });
        assert(framebuffer.pixels@[middle.index_of(x, y)] == if rect.on_border(x, y) {
            border.over(Color(middle.pixels@[middle.index_of(x, y)])).0
        } else {
            middle.pixels@[middle.index_of(x, y)]
        });
    }
}

impl UiContext {
    /// Records one input event.
    pub fn handle_event(&mut self, event: &UiEvent)
        ensures
            final(self)@ == old(self)@.handled(*event),
    {
        match event {
            UiEvent::MouseMove { x, y } => {
                self.pointer = (*x, *y);
            },
            UiEvent::MouseDown { button } => {
                if *button == MouseButton::Left {
                    self.left_down = true;
                    self.mouse_pressed = true;
                }
            },
            UiEvent::MouseUp { button } => {
                if *button == MouseButton::Left {
                    self.left_down = false;
                }
            },
            UiEvent::KeyDown { key } => match key {
                Key::Tab => self.focus_next(),
                Key::Enter => {
                    self.activate_pressed = true;
                },
                Key::Space => {
                    self.activate_pressed = true;
                },
                Key::Backspace => {
                    self.backspace_pressed = true;
                },
                _ => {},
            },
            UiEvent::TextInput { character } => {
                if !is_control(*character) {
                    string_push(&mut self.pending_text, *character);
                }
            },
            UiEvent::Other => {},
        }
    }

    /// Starts a frame: widgets register for focus again as they are drawn.
    pub fn begin_frame(&mut self)
        ensures
            final(self)@ == (UiView { focus_order: Seq::empty(), ..old(self)@ }),
    {
        self.focus_order.clear();
    }

    /// Ends a frame: the presses and the text of this frame are consumed.
    pub fn end_frame(&mut self)
        ensures
            final(self)@ == (UiView {
                mouse_pressed: false,
                backspace_pressed: false,
                activate_pressed: false,
                pending_text: Seq::empty(),
                ..old(self)@
            }),
    {
        self.mouse_pressed = false;
        self.backspace_pressed = false;
        self.activate_pressed = false;
        self.pending_text = String::new();
    }

    /// Draws a panel background with its outline.
    pub fn panel(&self, framebuffer: &mut FrameBuffer, rect: Rect)
        requires
            old(framebuffer).wf(),
        ensures
            boxed(*old(framebuffer), *final(framebuffer), rect, Color::from_channels(35, 39, 46, 245), Color::from_channels(88, 94, 105, 255)),
    {
        draw_box(framebuffer, rect, Color::rgba(35, 39, 46, 245), Color::rgb(88, 94, 105));
    }

    /// Draws a push button and reports whether it was activated: clicked
    /// this frame, or focused while Enter or Space went down. Clicking it
    /// gives it focus. The caption `text` is not drawn: this library has no
    /// font to draw it with.
    pub fn button(&mut self, framebuffer: &mut FrameBuffer, id: u32, rect: Rect, text: &str) -> (activated: bool)
        requires
            old(framebuffer).wf(),
        ensures
            ({
                let registered = old(self)@.registered(id);
                let hovered = registered.hovers(rect);
                let focused = if hovered && registered.mouse_pressed { Some(id) } else { registered.focused };
                &&& final(self)@ == (UiView { focused, ..registered })
                &&& activated == ((hovered && registered.mouse_pressed) || (focused == Some(id) && registered.activate_pressed))
                &&& boxed(
                    *old(framebuffer),
                    *final(framebuffer),
                    rect,
                    if hovered && registered.left_down {
                        Color::from_channels(65, 105, 160, 255)
                    } else if hovered || focused == Some(id) {
                        Color::from_channels(72, 118, 180, 255)
                    } else {
                        Color::from_channels(58, 92, 140, 255)
                    },
                    Color::from_channels(150, 170, 195, 255),
                )
            }),
    {
        self.register_focus(id);
        let hovered = rect.contains(self.pointer.0, self.pointer.1);
        if hovered && self.mouse_pressed {
            self.focused = Some(id);
        }
        let focused = matches!(self.focused, Some(current) if current == id);
        let background = if hovered && self.left_down {
            Color::rgb(65, 105, 160)
        } else if hovered || focused {
            Color::rgb(72, 118, 180)
        } else {
            Color::rgb(58, 92, 140)
        };
        let border = Color::rgb(150, 170, 195);
        draw_box(framebuffer, rect, background, border);
        (hovered && self.mouse_pressed) || (focused && self.activate_pressed)
    }

    /// A single-line text field editing `value`. Clicking it focuses it and
    /// clicking elsewhere unfocuses it; while focused, Backspace removes the
    /// last character and typed characters are appended up to the field's
    /// capacity.
    pub fn text_input(&mut self, framebuffer: &mut FrameBuffer, id: u32, rect: Rect, value: &mut String)
        requires
            old(framebuffer).wf(),
        ensures
            ({
                let registered = old(self)@.registered(id);
                let hovered = registered.hovers(rect);
                let focused = if registered.mouse_pressed && hovered {
                    Some(id)
                } else if registered.mouse_pressed && registered.focused == Some(id) {
                    None
                } else {
                    registered.focused
                };
                &&& final(self)@ == (UiView { focused, ..registered })
                &&& final(value)@ == if focused == Some(id) {
                    edited_text(old(value)@, registered.pending_text, registered.backspace_pressed, field_capacity(rect.width))
                } else {
                    old(value)@
                }
                &&& boxed(
                    *old(framebuffer),
                    *final(framebuffer),
                    rect,
                    Color::from_channels(22, 25, 30, 255),
                    if focused == Some(id) {
                        Color::from_channels(90, 155, 230, 255)
                    } else if hovered {
                        Color::from_channels(120, 130, 145, 255)
                    } else {
                        Color::from_channels(75, 82, 92, 255)
                    },
                )
            }),
    {
        self.register_focus(id);
        let hovered = rect.contains(self.pointer.0, self.pointer.1);
        if self.mouse_pressed {
            if hovered {
                self.focused = Some(id);
            } else if matches!(self.focused, Some(current) if current == id) {
                self.focused = None;
            }
        }
        let focused = matches!(self.focused, Some(current) if current == id);
        let inner = if rect.width >= 16 { rect.width - 16 } else { 0 };
        let fits = inner / (6 * TEXT_SCALE);
        let capacity: usize = if fits >= 1 { fits as usize } else { 1 };
        if focused {
            let ghost original = value@;
            if self.backspace_pressed {
                string_pop(value);
            }
            let ghost kept = value@;
            let mut count = value.as_str().unicode_len();
            let typed = self.pending_text.as_str();
            let typed_length = typed.unicode_len();
            let mut i: usize = 0;
            while i < typed_length
                invariant
                    typed@ == self.pending_text@,
                    typed_length == typed@.len(),
                    i <= typed_length,
                    count == value@.len(),
                    value@ == kept + typed@.subrange(
                        0,
                        if capacity > kept.len() {
                            if (capacity - kept.len()) < i { (capacity - kept.len()) as int } else { i as int }
                        } else {
                            0
                        },
                    ),
                decreases typed_length - i,
            {
                let character = typed.get_char(i);
                if count < capacity {
                    proof {
                        assert(typed@.subrange(0, i + 1) =~= typed@.subrange(0, i as int).push(character));
                    }
                    string_push(value, character);
                    count += 1;
                }
                i += 1;
            }
            assert(value@ =~= edited_text(original, self.pending_text@, self.backspace_pressed, field_capacity(rect.width)));
        }
        let border = if focused {
            Color::rgb(90, 155, 230)
        } else if hovered {
            Color::rgb(120, 130, 145)
        } else {
            Color::rgb(75, 82, 92)
        };
        let fill = Color::rgb(22, 25, 30);
        draw_box(framebuffer, rect, fill, border);
    }

    /// Adds `id` to this frame's focus order unless it is there already.
    pub fn register_focus(&mut self, id: u32)
        ensures
            final(self)@ == old(self)@.registered(id),
    {
        let mut i: usize = 0;
        while i < self.focus_order.len()
            invariant
                i <= self.focus_order@.len(),
                forall|k: int| 0 <= k < i ==> self.focus_order@[k] != id,
            decreases self.focus_order@.len() - i,
        {
            if self.focus_order[i] == id {
                assert(self.focus_order@.contains(id));
                return;
            }
            i += 1;
        }
        assert(!self.focus_order@.contains(id));
        self.focus_order.push(id);
    }

    /// Moves focus to the next widget of this frame's focus order.
    pub fn focus_next(&mut self)
        ensures
            final(self)@ == old(self)@.focus_moved(),
    {
        let length = self.focus_order.len();
        if length == 0 {
            return;
        }
        let index = match self.focused {
            Some(focused) => match first_position(&self.focus_order, focused) {
                Some(position) => {
                    proof {
                        self.focus_order@.index_of_first_ensures(focused);
                    }
                    (position + 1) % length
                },
                None => 0,
            },
            None => 0,
        };
        self.focused = Some(self.focus_order[index]);
    }
}

/// The first index at which `value` occurs in `order`.
fn first_position(order: &Vec<u32>, value: u32) -> (position: Option<usize>)
    ensures
        match position {
            Some(index) => order@.index_of_first(value) == Some(index as int),
            None => order@.index_of_first(value) is None,
        },
{
    let mut i: usize = 0;
    while i < order.len()
        invariant
            i <= order@.len(),
            forall|k: int| 0 <= k < i ==> order@[k] != value,
        decreases order@.len() - i,
    {
        if order[i] == value {
            proof {
                order@.index_of_first_ensures(value);
                assert(order@.contains(value));
                let first = order@.index_of_first(value).unwrap();
                assert(!(first < i));
                assert(!(i < first));
            }
            return Some(i);
        }
        i += 1;
    }
    proof {
        order@.index_of_first_ensures(value);
        if order@.contains(value) {
            let k = choose|k: int| 0 <= k < order@.len() && order@[k] == value;
            assert(order@[k] != value);
        }
    }
    None
}

/// A text field never grows past its capacity: after a frame it holds at
/// most `limit` characters, or no more than it held before.
pub proof fn lemma_edited_text_fits(value: Seq<char>, typed: Seq<char>, backspace: bool, limit: int)
    ensures
        edited_text(value, typed, backspace, limit).len() <= if value.len() > limit {
            value.len() as int
        } else {
            limit
        },
{
}

} // verus!
