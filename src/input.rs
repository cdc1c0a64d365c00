//! Input decisions: which low-level actions a remote mouse or keyboard event
//! turns into. Performing the actions is the caller's.
use vstd::prelude::*;
use crate::util::{same_text, chars_of};
use crate::permissions::{allows, Permission, PermissionManager};

verus! {

#[derive(Debug, Clone, Copy, PartialEq, Eq, Structural)]
pub enum MouseEventType {
    Move,
    Press,
    Release,
    Click,
    DoubleClick,
    Scroll,
    Drag,
}

#[derive(Debug, Clone, Copy, PartialEq, Eq, Structural)]
pub enum MouseButtonType {
    Left,
    Right,
    Middle,
    X1,
    X2,
}

#[derive(Debug, Clone, Copy, PartialEq, Eq, Structural)]
pub enum KeyModifier {
    Ctrl,
    Alt,
    Shift,
    Meta,
    Super,
}

#[derive(Debug, Clone, Copy, PartialEq, Eq, Structural)]
pub enum KeyboardEventType {
    KeyDown,
    KeyUp,
    KeyPress,
    TextInput,
}

#[derive(Debug)]
pub struct MouseEvent {
    pub x: i32,
    pub y: i32,
    pub event_type: MouseEventType,
    pub button: Option<MouseButtonType>,
    /// Scroll amount, for scroll events.
    pub delta: Option<i32>,
    pub modifiers: Vec<KeyModifier>,
}

#[derive(Debug)]
pub struct KeyboardEvent {
    pub event_type: KeyboardEventType,
    pub key: Option<String>,
    pub key_code: Option<u32>,
    pub text: Option<String>,
    pub modifiers: Vec<KeyModifier>,
}

/// A key the injector knows.
#[derive(Debug, Clone, Copy, PartialEq, Eq, Structural)]
pub enum Key {
    Unicode(char),
    Return,
    Tab,
    Backspace,
    Delete,
    Escape,
    UpArrow,
    DownArrow,
    LeftArrow,
    RightArrow,
    Shift,
    Control,
    Alt,
    Meta,
    F1,
    F2,
    F3,
    F4,
    F5,
    F6,
    F7,
    F8,
    F9,
    F10,
    F11,
    F12,
    Home,
    End,
    PageUp,
    PageDown,
}

/// One low-level action for the injector.
#[derive(Debug)]
pub enum InputAction {
    MoveTo(i32, i32),
    Press(MouseButtonType),
    Release(MouseButtonType),
    /// Pause for this many milliseconds.
    Wait(u64),
    /// Scroll vertically by this many ticks.
    Scroll(i32),
    KeyDown(Key),
    KeyUp(Key),
    Text(String),
}

#[derive(Debug, Clone, Copy, PartialEq, Eq, Structural)]
pub enum InputError {
    /// A key name longer than one character that names no key.
    UnknownKey,
}

/// The key a lower-cased key name names.
pub open spec fn named_key(s: Seq<char>) -> Option<Key> {
    if s.len() == 1 && (('a' <= s[0] && s[0] <= 'z') || ('0' <= s[0] && s[0] <= '9')) { Some(Key::Unicode(s[0])) }
    else if s == "space"@ { Some(Key::Unicode(' ')) }
    else if s == "enter"@ || s == "return"@ { Some(Key::Return) }
    else if s == "tab"@ { Some(Key::Tab) }
    else if s == "backspace"@ { Some(Key::Backspace) }
    else if s == "delete"@ { Some(Key::Delete) }
    else if s == "escape"@ || s == "esc"@ { Some(Key::Escape) }
    else if s == "up"@ || s == "arrowup"@ { Some(Key::UpArrow) }
    else if s == "down"@ || s == "arrowdown"@ { Some(Key::DownArrow) }
    else if s == "left"@ || s == "arrowleft"@ { Some(Key::LeftArrow) }
    else if s == "right"@ || s == "arrowright"@ { Some(Key::RightArrow) }
    else if s == "shift"@ { Some(Key::Shift) }
    else if s == "ctrl"@ || s == "control"@ { Some(Key::Control) }
    else if s == "alt"@ { Some(Key::Alt) }
    else if s == "meta"@ || s == "cmd"@ || s == "super"@ { Some(Key::Meta) }
    else if s == "f1"@ { Some(Key::F1) }
    else if s == "f2"@ { Some(Key::F2) }
    else if s == "f3"@ { Some(Key::F3) }
    else if s == "f4"@ { Some(Key::F4) }
    else if s == "f5"@ { Some(Key::F5) }
    else if s == "f6"@ { Some(Key::F6) }
    else if s == "f7"@ { Some(Key::F7) }
    else if s == "f8"@ { Some(Key::F8) }
    else if s == "f9"@ { Some(Key::F9) }
    else if s == "f10"@ { Some(Key::F10) }
    else if s == "f11"@ { Some(Key::F11) }
    else if s == "f12"@ { Some(Key::F12) }
    else if s == "home"@ { Some(Key::Home) }
    else if s == "end"@ { Some(Key::End) }
    else if s == "pageup"@ { Some(Key::PageUp) }
    else if s == "pagedown"@ { Some(Key::PageDown) }
    else { None }
}

/// The key for a name given with its lower-cased form: a named key, else a
/// one-character name as that character.
pub open spec fn key_of(lowered: Seq<char>, name: Seq<char>) -> Option<Key> {
    match named_key(lowered) {
        Some(k) => Some(k),
        None => if name.len() == 1 { Some(Key::Unicode(name[0])) } else { None },
    }
}

/// What `str::to_lowercase` makes of a text.
pub uninterp spec fn lower_of(s: Seq<char>) -> Seq<char>;

/// Relies on `str::to_lowercase`, whose result depends on the text alone.
#[verifier::external_body]
fn lowercase(s: &str) -> (r: String)
    ensures
        r@ == lower_of(s@),
{
    s.to_lowercase()
}

fn named_key_exec(s: &str) -> (r: Option<Key>)
    ensures
        r == named_key(s@),
{
    let cs = chars_of(s);
    if cs.len() == 1 && (('a' <= cs[0] && cs[0] <= 'z') || ('0' <= cs[0] && cs[0] <= '9')) {
        return Some(Key::Unicode(cs[0]));
    }
    if same_text(s, "space") { Some(Key::Unicode(' ')) }
    else if same_text(s, "enter") || same_text(s, "return") { Some(Key::Return) }
    else if same_text(s, "tab") { Some(Key::Tab) }
    else if same_text(s, "backspace") { Some(Key::Backspace) }
    else if same_text(s, "delete") { Some(Key::Delete) }
    else if same_text(s, "escape") || same_text(s, "esc") { Some(Key::Escape) }
    else if same_text(s, "up") || same_text(s, "arrowup") { Some(Key::UpArrow) }
    else if same_text(s, "down") || same_text(s, "arrowdown") { Some(Key::DownArrow) }
    else if same_text(s, "left") || same_text(s, "arrowleft") { Some(Key::LeftArrow) }
    else if same_text(s, "right") || same_text(s, "arrowright") { Some(Key::RightArrow) }
    else if same_text(s, "shift") { Some(Key::Shift) }
    else if same_text(s, "ctrl") || same_text(s, "control") { Some(Key::Control) }
    else if same_text(s, "alt") { Some(Key::Alt) }
    else if same_text(s, "meta") || same_text(s, "cmd") || same_text(s, "super") { Some(Key::Meta) }
    else if same_text(s, "f1") { Some(Key::F1) }
    else if same_text(s, "f2") { Some(Key::F2) }
    else if same_text(s, "f3") { Some(Key::F3) }
    else if same_text(s, "f4") { Some(Key::F4) }
    else if same_text(s, "f5") { Some(Key::F5) }
    else if same_text(s, "f6") { Some(Key::F6) }
    else if same_text(s, "f7") { Some(Key::F7) }
    else if same_text(s, "f8") { Some(Key::F8) }
    else if same_text(s, "f9") { Some(Key::F9) }
    else if same_text(s, "f10") { Some(Key::F10) }
    else if same_text(s, "f11") { Some(Key::F11) }
    else if same_text(s, "f12") { Some(Key::F12) }
    else if same_text(s, "home") { Some(Key::Home) }
    else if same_text(s, "end") { Some(Key::End) }
    else if same_text(s, "pageup") { Some(Key::PageUp) }
    else if same_text(s, "pagedown") { Some(Key::PageDown) }
    else { None }
}

/// The key for a name, given the name's lower-cased form as well.
pub fn key_from_lowered(lowered: &str, key_str: &str) -> (r: Result<Key, InputError>)
    ensures
        match key_of(lowered@, key_str@) {
            Some(k) => r == Ok::<Key, InputError>(k),
            None => r == Err::<Key, InputError>(InputError::UnknownKey),
        },
{
    match named_key_exec(lowered) {
        Some(k) => Ok(k),
        None => {
            let cs = chars_of(key_str);
            if cs.len() == 1 {
                Ok(Key::Unicode(cs[0]))
            } else {
                Err(InputError::UnknownKey)
            }
        },
    }
}

/// The key for a name, matched without regard to case.
pub fn parse_key(key_str: &str) -> (r: Result<Key, InputError>)
    ensures
        match key_of(lower_of(key_str@), key_str@) {
            Some(k) => r == Ok::<Key, InputError>(k),
            None => r == Err::<Key, InputError>(InputError::UnknownKey),
        },
{
    let lowered = lowercase(key_str);
    key_from_lowered(lowered.as_str(), key_str)
}


#[derive(Debug, Clone, Copy, PartialEq, Eq, Structural)]
pub struct InputConfig {
    pub enable_mouse: bool,
    pub enable_keyboard: bool,
    /// Most milliseconds between two clicks that make a double click.
    pub double_click_speed: u64,
    /// Milliseconds a pressed key is held.
    pub key_repeat_delay: u64,
    pub key_repeat_rate: u64,
    pub smooth_mouse_movement: bool,
}

impl InputConfig {
    pub fn default_config() -> (r: Self)
        ensures
            r.enable_mouse && r.enable_keyboard && r.smooth_mouse_movement,
            r.double_click_speed == 500 && r.key_repeat_delay == 250 && r.key_repeat_rate == 33,
    {
        InputConfig {
            enable_mouse: true,
            enable_keyboard: true,
            double_click_speed: 500,
            key_repeat_delay: 250,
            key_repeat_rate: 33,
            smooth_mouse_movement: true,
        }
    }
}

#[derive(Debug, Clone, Copy)]
pub struct DragState {
    pub start_position: (i32, i32),
    pub current_position: (i32, i32),
    pub button: MouseButtonType,
}

#[derive(Debug)]
pub struct InputStats {
    pub mouse_position: (i32, i32),
    pub pressed_mouse_buttons: usize,
    pub pressed_keys: usize,
    pub is_dragging: bool,
    pub active_modifiers: Vec<KeyModifier>,
}

/// The key a modifier presses.
pub open spec fn modifier_key(m: KeyModifier) -> Key {
    match m {
        KeyModifier::Ctrl => Key::Control,
        KeyModifier::Alt => Key::Alt,
        KeyModifier::Shift => Key::Shift,
        KeyModifier::Meta => Key::Meta,
        KeyModifier::Super => Key::Meta,
    }
}

/// The modifiers pressed, in order, before a keyboard event's main action.
pub open spec fn modifier_downs(mods: Seq<KeyModifier>) -> Seq<InputAction> {
    mods.map_values(|m: KeyModifier| InputAction::KeyDown(modifier_key(m)))
}

/// The main action of a key event: down, up, or down, hold, up.
pub open spec fn key_actions(t: KeyboardEventType, k: Key, hold: u64) -> Seq<InputAction> {
    match t {
        KeyboardEventType::KeyDown => seq![InputAction::KeyDown(k)],
        KeyboardEventType::KeyUp => seq![InputAction::KeyUp(k)],
        _ => seq![InputAction::KeyDown(k), InputAction::Wait(hold), InputAction::KeyUp(k)],
    }
}

/// Whether a click at (x, y) at time `now` completes a double click: the
/// previous click came less than `speed` ms before, within five pixels.
pub open spec fn is_double_click(last_time: Option<u64>, last_pos: Option<(i32, i32)>, x: i32, y: i32, now: u64, speed: u64) -> bool {
    match (last_time, last_pos) {
        (Some(t), Some(p)) => {
            let dt: int = if now >= t { now - t } else { 0 };
            let dx: int = x - p.0;
            let dy: int = y - p.1;
            dt < speed && dx * dx + dy * dy < 25
        },
        _ => false,
    }
}

pub open spec fn click_actions(x: i32, y: i32, b: MouseButtonType) -> Seq<InputAction> {
    seq![InputAction::MoveTo(x, y), InputAction::Press(b), InputAction::Wait(50), InputAction::Release(b)]
}

pub open spec fn double_click_actions(x: i32, y: i32, b: MouseButtonType) -> Seq<InputAction> {
    click_actions(x, y, b) + seq![InputAction::Wait(100), InputAction::Press(b), InputAction::Wait(50), InputAction::Release(b)]
}

/// A scroll is always three ticks, down for a positive amount.
pub open spec fn scroll_ticks(delta: i32) -> i32 {
    if delta > 0 { 3i32 } else { -3i32 }
}

pub open spec fn abs_of(v: int) -> int {
    if v < 0 { -v } else { v }
}

/// `a / b` rounded toward zero.
pub open spec fn div_toward_zero(a: int, b: int) -> int {
    if a >= 0 { a / b } else { -((-a) / b) }
}

/// How many steps a smoothed move takes: a tenth of the longer axis of
/// the move, rounded up, and at least one.
pub open spec fn smooth_steps(dx: int, dy: int) -> int {
    let m = if abs_of(dx) > abs_of(dy) { abs_of(dx) } else { abs_of(dy) };
    if m <= 10 { 1 } else { (m + 9) / 10 }
}

/// Step `i` of `n` on the straight line from `from` to `to`.
pub open spec fn line_point(from: (i32, i32), to: (i32, i32), i: int, n: int) -> (int, int) {
    (from.0 + div_toward_zero((to.0 - from.0) * i, n), from.1 + div_toward_zero((to.1 - from.1) * i, n))
}

/// The first `k` steps of a smoothed move, each a move then a 1 ms pause.
pub open spec fn smooth_moves(from: (i32, i32), to: (i32, i32), k: nat) -> Seq<InputAction>
    decreases k,
{
    if k == 0 {
        Seq::empty()
    } else {
        let n = smooth_steps(to.0 - from.0, to.1 - from.1);
        let p = line_point(from, to, k as int, n);
        smooth_moves(from, to, (k - 1) as nat) + seq![InputAction::MoveTo(p.0 as i32, p.1 as i32), InputAction::Wait(1)]
    }
}

proof fn lemma_line_point_between(a: int, d: int, i: int, n: int)
    requires
        0 <= i <= n,
        n >= 1,
    ensures
        abs_of(div_toward_zero(d * i, n)) <= abs_of(d),
        d >= 0 ==> 0 <= div_toward_zero(d * i, n) <= d,
        d < 0 ==> d <= div_toward_zero(d * i, n) <= 0,
{
    let e = abs_of(d);
    assert(e * i <= e * n) by (nonlinear_arith)
        requires 0 <= i <= n, e >= 0;
    assert(0 <= e * i) by (nonlinear_arith)
        requires 0 <= i, e >= 0;
    vstd::arithmetic::div_mod::lemma_div_is_ordered(e * i, e * n, n);
    vstd::arithmetic::div_mod::lemma_div_multiples_vanish(e, n);
    vstd::arithmetic::div_mod::lemma_div_pos_is_pos(e * i, n);
    assert(e * n == n * e) by (nonlinear_arith);
    let q = (e * i) / n;
    assert(0 <= q <= e);
    if d < 0 {
        assert(-(d * i) == e * i) by (nonlinear_arith)
            requires e == -d;
        if d * i >= 0 {
            assert(e * i == 0);
            assert(div_toward_zero(d * i, n) == (d * i) / n);
            assert((d * i) == 0);
            assert(0int / n == 0);
        } else {
            assert(div_toward_zero(d * i, n) == -q);
        }
    } else {
        assert(d * i == e * i);
        assert(div_toward_zero(d * i, n) == q);
    }
}

fn abs_i64(v: i64) -> (r: i64)
    requires
        v > i64::MIN,
    ensures
        r == abs_of(v as int),
{
    if v < 0 { -v } else { v }
}

/// Decides the actions of mouse and keyboard events, keeping the pointer,
/// click, button and drag state that they depend on.
pub struct InputPlanner {
    config: InputConfig,
    last_position: (i32, i32),
    last_click_time: Option<u64>,
    last_click_position: Option<(i32, i32)>,
    pressed_buttons: Vec<MouseButtonType>,
    drag_state: Option<DragState>,
    pressed_keys: usize,
    denied_events: u64,
}

impl InputPlanner {
    pub closed spec fn settings(&self) -> InputConfig {
        self.config
    }

    pub closed spec fn position(&self) -> (i32, i32) {
        self.last_position
    }

    pub closed spec fn last_click(&self) -> (Option<u64>, Option<(i32, i32)>) {
        (self.last_click_time, self.last_click_position)
    }

    pub closed spec fn drag(&self) -> Option<DragState> {
        self.drag_state
    }

    /// How many input events were dropped for want of permission.
    pub closed spec fn denied(&self) -> u64 {
        self.denied_events
    }

    /// Whether an input event of connection `connection_id` at `now` may be
    /// applied: only with a live grant of input control. A refused event is
    /// counted, and nothing is said to the peer.
    pub fn allow_event(&mut self, permissions: &PermissionManager, connection_id: &str, now: u64) -> (r: bool)
        requires
            permissions.wf(),
        ensures
            r == allows(permissions.grant(connection_id@), Permission::InputControl, now),
            final(self).denied() == (if r { old(self).denied() as int } else if old(self).denied() < u64::MAX {
                old(self).denied() + 1
            } else {
                u64::MAX as int
            }),
            final(self).settings() == old(self).settings(),
            final(self).position() == old(self).position(),
            final(self).last_click() == old(self).last_click(),
            final(self).drag() == old(self).drag(),
    {
        let ok = permissions.check_permission(connection_id, Permission::InputControl, now);
        if !ok && self.denied_events < u64::MAX {
            self.denied_events = self.denied_events + 1;
        }
        ok
    }

    pub fn denied_count(&self) -> (r: u64)
        ensures
            r == self.denied(),
    {
        self.denied_events
    }

    pub fn new(config: InputConfig) -> (r: Self)
        ensures
            r.denied() == 0,
            r.settings() == config,
            r.position() == (0i32, 0i32),
            r.last_click() == (None::<u64>, None::<(i32, i32)>),
            r.drag() is None,
    {
        InputPlanner {
            config,
            last_position: (0, 0),
            last_click_time: None,
            last_click_position: None,
            pressed_buttons: Vec::new(),
            drag_state: None,
            pressed_keys: 0,
            denied_events: 0,
        }
    }

    fn push_click(out: &mut Vec<InputAction>, x: i32, y: i32, b: MouseButtonType)
        ensures
            final(out)@ == old(out)@ + click_actions(x, y, b),
    {
        out.push(InputAction::MoveTo(x, y));
        out.push(InputAction::Press(b));
        out.push(InputAction::Wait(50));
        out.push(InputAction::Release(b));
        proof {
            assert(out@ =~= old(out)@ + click_actions(x, y, b));
        }
    }

    fn double_click(x: i32, y: i32, b: MouseButtonType) -> (r: Vec<InputAction>)
        ensures
            r@ == double_click_actions(x, y, b),
    {
        let mut out: Vec<InputAction> = Vec::new();
        Self::push_click(&mut out, x, y, b);
        out.push(InputAction::Wait(100));
        out.push(InputAction::Press(b));
        out.push(InputAction::Wait(50));
        out.push(InputAction::Release(b));
        proof {
            assert(out@ =~= double_click_actions(x, y, b));
        }
        out
    }

    /// A click: when it completes a double click it becomes one, and the
    /// click memory stays as it was; else it is a press and release, and it
    /// is remembered for the next click.
    pub fn plan_click(&mut self, x: i32, y: i32, button: MouseButtonType, now: u64) -> (r: Vec<InputAction>)
        ensures
            final(self).settings() == old(self).settings(),
            final(self).drag() == old(self).drag(),
            if is_double_click(old(self).last_click().0, old(self).last_click().1, x, y, now, old(self).settings().double_click_speed) {
                &&& r@ == double_click_actions(x, y, button)
                &&& final(self).last_click() == old(self).last_click()
                &&& final(self).position() == old(self).position()
            } else {
                &&& r@ == click_actions(x, y, button)
                &&& final(self).last_click() == (Some(now), Some((x, y)))
                &&& final(self).position() == (x, y)
            },
    {
        let double = match (self.last_click_time, self.last_click_position) {
            (Some(t), Some(p)) => {
                let dt: u64 = if now >= t { now - t } else { 0 };
                let dx: i64 = x as i64 - p.0 as i64;
                let dy: i64 = y as i64 - p.1 as i64;
                proof {
                    assert(dx * dx <= 0x1_0000_0000 * 0x1_0000_0000) by (nonlinear_arith)
                        requires -0x1_0000_0000 <= dx <= 0x1_0000_0000;
                    assert(dy * dy <= 0x1_0000_0000 * 0x1_0000_0000) by (nonlinear_arith)
                        requires -0x1_0000_0000 <= dy <= 0x1_0000_0000;
                    assert(0 <= dx * dx) by (nonlinear_arith);
                    assert(0 <= dy * dy) by (nonlinear_arith);
                }
                let d2: i128 = (dx as i128) * (dx as i128) + (dy as i128) * (dy as i128);
                dt < self.config.double_click_speed && d2 < 25
            },
            _ => false,
        };
        if double {
            return Self::double_click(x, y, button);
        }
        let mut out: Vec<InputAction> = Vec::new();
        Self::push_click(&mut out, x, y, button);
        proof {
            assert(out@ =~= click_actions(x, y, button));
        }
        self.last_click_time = Some(now);
        self.last_click_position = Some((x, y));
        self.last_position = (x, y);
        out
    }

    /// A move to (x, y): straight there, or when smoothing is on along the
    /// line from the last position in `smooth_steps` steps with a 1 ms
    /// pause after each.
    pub fn plan_move(&mut self, x: i32, y: i32) -> (r: Vec<InputAction>)
        ensures
            final(self).settings() == old(self).settings(),
            final(self).last_click() == old(self).last_click(),
            final(self).drag() == old(self).drag(),
            final(self).position() == (x, y),
            !old(self).settings().smooth_mouse_movement ==> r@ == seq![InputAction::MoveTo(x, y)],
            old(self).settings().smooth_mouse_movement ==> r@ == smooth_moves(old(self).position(), (x, y),
                smooth_steps(x - old(self).position().0, y - old(self).position().1) as nat),
    {
        if !self.config.smooth_mouse_movement {
            self.last_position = (x, y);
            let mut out: Vec<InputAction> = Vec::new();
            out.push(InputAction::MoveTo(x, y));
            proof {
                assert(out@ =~= seq![InputAction::MoveTo(x, y)]);
            }
            return out;
        }
        let from = self.last_position;
        let dx: i64 = x as i64 - from.0 as i64;
        let dy: i64 = y as i64 - from.1 as i64;
        let ax = abs_i64(dx);
        let ay = abs_i64(dy);
        let m = if ax > ay { ax } else { ay };
        let steps: i64 = if m <= 10 { 1 } else { (m + 9) / 10 };
        let mut out: Vec<InputAction> = Vec::new();
        let mut i: i64 = 1;
        while i <= steps
            invariant
                1 <= i <= steps + 1,
                1 <= steps <= 0x2000_0000,
                dx == x - from.0,
                dy == y - from.1,
                steps == smooth_steps(x - from.0, y - from.1),
                out@ == smooth_moves(from, (x, y), (i - 1) as nat),
            decreases steps + 1 - i,
        {
            proof {
                lemma_line_point_between(from.0 as int, dx as int, i as int, steps as int);
                lemma_line_point_between(from.1 as int, dy as int, i as int, steps as int);
                assert(-0x1_0000_0000 * 0x2000_0001 <= dx * i <= 0x1_0000_0000 * 0x2000_0001) by (nonlinear_arith)
                    requires -0x1_0000_0000 <= dx <= 0x1_0000_0000, 1 <= i <= 0x2000_0001;
                assert(-0x1_0000_0000 * 0x2000_0001 <= dy * i <= 0x1_0000_0000 * 0x2000_0001) by (nonlinear_arith)
                    requires -0x1_0000_0000 <= dy <= 0x1_0000_0000, 1 <= i <= 0x2000_0001;
                assert((-dx) * i == -(dx * i)) by (nonlinear_arith);
                assert((-dy) * i == -(dy * i)) by (nonlinear_arith);
            }
            let px: i64 = if dx >= 0 { from.0 as i64 + (dx * i) / steps } else { from.0 as i64 - ((-dx) * i) / steps };
            let py: i64 = if dy >= 0 { from.1 as i64 + (dy * i) / steps } else { from.1 as i64 - ((-dy) * i) / steps };
            proof {
                let lp = line_point(from, (x, y), i as int, steps as int);
                assert(px == lp.0 && py == lp.1);
            }
            out.push(InputAction::MoveTo(px as i32, py as i32));
            out.push(InputAction::Wait(1));
            proof {
                assert(out@ =~= smooth_moves(from, (x, y), i as nat));
            }
            i = i + 1;
        }
        self.last_position = (x, y);
        out
    }

    /// The actions of a mouse event at time `now` (ms). Nothing happens when
    /// the mouse is disabled or the event lacks the button or amount it needs.
    pub fn plan_mouse(&mut self, event: &MouseEvent, now: u64) -> (r: Vec<InputAction>)
        ensures
            final(self).settings() == old(self).settings(),
            !old(self).settings().enable_mouse ==> r@.len() == 0 && final(self).position() == old(self).position()
                && final(self).last_click() == old(self).last_click() && final(self).drag() == old(self).drag(),
            old(self).settings().enable_mouse ==> match (event.event_type, event.button, event.delta) {
                (MouseEventType::Click, Some(b), _) => if is_double_click(old(self).last_click().0, old(self).last_click().1,
                    event.x, event.y, now, old(self).settings().double_click_speed) {
                    r@ == double_click_actions(event.x, event.y, b) && final(self).last_click() == old(self).last_click()
                } else {
                    r@ == click_actions(event.x, event.y, b) && final(self).last_click() == (Some(now), Some((event.x, event.y)))
                },
                (MouseEventType::DoubleClick, Some(b), _) => r@ == double_click_actions(event.x, event.y, b),
                (MouseEventType::Press, Some(b), _) => r@ == seq![InputAction::MoveTo(event.x, event.y), InputAction::Press(b)]
                    && final(self).position() == (event.x, event.y),
                (MouseEventType::Release, Some(b), _) => r@ == seq![InputAction::Release(b)]
                    && (old(self).drag() is Some && old(self).drag()->Some_0.button == b ==> final(self).drag() is None),
                (MouseEventType::Scroll, _, Some(d)) => r@ == seq![InputAction::Scroll(scroll_ticks(d))],
                (MouseEventType::Move, _, _) => final(self).position() == (event.x, event.y)
                    && (!old(self).settings().smooth_mouse_movement ==> r@ == seq![InputAction::MoveTo(event.x, event.y)]),
                (MouseEventType::Drag, Some(b), _) => {
                    &&& r@ == seq![InputAction::MoveTo(event.x, event.y)]
                    &&& final(self).position() == (event.x, event.y)
                    &&& final(self).drag() is Some
                    &&& final(self).drag()->Some_0.current_position == (event.x, event.y)
                    &&& old(self).drag() is None ==> final(self).drag()->Some_0.start_position == old(self).position()
                        && final(self).drag()->Some_0.button == b
                },
                _ => r@.len() == 0,
            },
    {
        let mut out: Vec<InputAction> = Vec::new();
        if !self.config.enable_mouse {
            return out;
        }
        let x = event.x;
        let y = event.y;
        match (event.event_type, event.button, event.delta) {
            (MouseEventType::Click, Some(b), _) => self.plan_click(x, y, b, now),
            (MouseEventType::DoubleClick, Some(b), _) => Self::double_click(x, y, b),
            (MouseEventType::Press, Some(b), _) => {
                out.push(InputAction::MoveTo(x, y));
                out.push(InputAction::Press(b));
                self.pressed_buttons.push(b);
                self.last_position = (x, y);
                proof {
                    assert(out@ =~= seq![InputAction::MoveTo(x, y), InputAction::Press(b)]);
                }
                out
            },
            (MouseEventType::Release, Some(b), _) => {
                out.push(InputAction::Release(b));
                let mut kept: Vec<MouseButtonType> = Vec::new();
                let mut i: usize = 0;
                while i < self.pressed_buttons.len()
                    invariant
                        i <= self.pressed_buttons@.len(),
                    decreases self.pressed_buttons@.len() - i,
                {
                    if self.pressed_buttons[i] != b {
                        kept.push(self.pressed_buttons[i]);
                    }
                    i = i + 1;
                }
                self.pressed_buttons = kept;
                match self.drag_state {
                    Some(d) => {
                        if d.button == b {
                            self.drag_state = None;
                        }
                    },
                    None => {},
                }
                proof {
                    assert(out@ =~= seq![InputAction::Release(b)]);
                }
                out
            },
            (MouseEventType::Scroll, _, Some(d)) => {
                let ticks: i32 = if d > 0 { 3 } else { -3 };
                out.push(InputAction::Scroll(ticks));
                proof {
                    assert(out@ =~= seq![InputAction::Scroll(scroll_ticks(d))]);
                }
                out
            },
            (MouseEventType::Move, _, _) => self.plan_move(x, y),
            (MouseEventType::Drag, Some(b), _) => {
                match self.drag_state {
                    None => {
                        self.drag_state = Some(DragState { start_position: self.last_position, current_position: (x, y), button: b });
                    },
                    Some(d) => {
                        self.drag_state = Some(DragState { start_position: d.start_position, current_position: (x, y), button: d.button });
                    },
                }
                self.last_position = (x, y);
                out.push(InputAction::MoveTo(x, y));
                proof {
                    assert(out@ =~= seq![InputAction::MoveTo(x, y)]);
                }
                out
            },
            _ => out,
        }
    }

    /// The actions of a keyboard event: its modifiers are pressed first,
    /// then the key goes down, up, down and up with the configured hold
    /// between, or the text is typed. Fails on a key name that names no key.
    pub fn plan_keyboard(&mut self, event: &KeyboardEvent) -> (r: Result<Vec<InputAction>, InputError>)
        ensures
            final(self).settings() == old(self).settings(),
            final(self).position() == old(self).position(),
            final(self).last_click() == old(self).last_click(),
            final(self).drag() == old(self).drag(),
            !old(self).settings().enable_keyboard ==> r is Ok && r->Ok_0@.len() == 0,
            old(self).settings().enable_keyboard && event.event_type == KeyboardEventType::TextInput ==> (r is Ok && match event.text {
                Some(t) => {
                    &&& r->Ok_0@.len() == event.modifiers@.len() + 1
                    &&& r->Ok_0@.subrange(0, event.modifiers@.len() as int) == modifier_downs(event.modifiers@)
                    &&& (r->Ok_0@.last() matches InputAction::Text(x) && x@ == t@)
                },
                None => r->Ok_0@ == modifier_downs(event.modifiers@),
            }),
            old(self).settings().enable_keyboard && event.event_type != KeyboardEventType::TextInput && event.key is None ==>
                (r is Ok && r->Ok_0@ == modifier_downs(event.modifiers@)),
            old(self).settings().enable_keyboard && event.event_type != KeyboardEventType::TextInput && event.key is Some ==> (
                match key_of(lower_of(event.key->Some_0@), event.key->Some_0@) {
                    None => r == Err::<Vec<InputAction>, InputError>(InputError::UnknownKey),
                    Some(k) => r is Ok && r->Ok_0@ == modifier_downs(event.modifiers@)
                        + key_actions(event.event_type, k, old(self).settings().key_repeat_delay),
                }),
    {
        let mut out: Vec<InputAction> = Vec::new();
        if !self.config.enable_keyboard {
            return Ok(out);
        }
        let mut i: usize = 0;
        while i < event.modifiers.len()
            invariant
                i <= event.modifiers@.len(),
                out@ == modifier_downs(event.modifiers@.subrange(0, i as int)),
                self.config.enable_keyboard,
                *self == *old(self),
            decreases event.modifiers@.len() - i,
        {
            let k = match event.modifiers[i] {
                KeyModifier::Ctrl => Key::Control,
                KeyModifier::Alt => Key::Alt,
                KeyModifier::Shift => Key::Shift,
                KeyModifier::Meta => Key::Meta,
                KeyModifier::Super => Key::Meta,
            };
            out.push(InputAction::KeyDown(k));
            i = i + 1;
            proof {
                assert(out@ =~= modifier_downs(event.modifiers@.subrange(0, i as int)));
            }
        }
        proof {
            assert(event.modifiers@.subrange(0, i as int) =~= event.modifiers@);
        }
        let ghost mods = out@;
        match event.event_type {
            KeyboardEventType::TextInput => {
                match &event.text {
                    Some(t) => {
                        out.push(InputAction::Text(t.clone()));
                        proof {
                            assert(out@.subrange(0, event.modifiers@.len() as int) =~= mods);
                        }
                    },
                    None => {},
                }
                Ok(out)
            },
            _ => match &event.key {
                None => Ok(out),
                Some(name) => {
                    let k = match parse_key(name.as_str()) {
                        Ok(k) => k,
                        Err(e) => return Err(e),
                    };
                    match event.event_type {
                        KeyboardEventType::KeyDown => {
                            out.push(InputAction::KeyDown(k));
                            self.pressed_keys = if self.pressed_keys < usize::MAX { self.pressed_keys + 1 } else { self.pressed_keys };
                        },
                        KeyboardEventType::KeyUp => {
                            out.push(InputAction::KeyUp(k));
                            self.pressed_keys = if self.pressed_keys > 0 { self.pressed_keys - 1 } else { 0 };
                        },
                        _ => {
                            out.push(InputAction::KeyDown(k));
                            out.push(InputAction::Wait(self.config.key_repeat_delay));
                            out.push(InputAction::KeyUp(k));
                        },
                    }
                    proof {
                        assert(out@ =~= mods + key_actions(event.event_type, k, self.config.key_repeat_delay));
                    }
                    Ok(out)
                },
            },
        }
    }

    pub fn get_input_stats(&self) -> (r: InputStats)
        ensures
            r.mouse_position == self.position(),
            r.is_dragging == self.drag() is Some,
    {
        InputStats {
            mouse_position: self.last_position,
            pressed_mouse_buttons: self.pressed_buttons.len(),
            pressed_keys: self.pressed_keys,
            is_dragging: self.drag_state.is_some(),
            active_modifiers: Vec::new(),
        }
    }
}

} // verus!
