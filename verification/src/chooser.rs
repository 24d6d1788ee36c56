//! The interactive state of the monitor: pause, the layout-profile chooser,
//! and what each user action asks of the event loop.

use crate::config::ProfileInfo;
use crate::event::Action;
use crate::layout::Rect;
use crate::config::strings_model;
use crate::scan::{char_index, chars_of, find_char, piece_string};
use crate::text::str_eq;
use vstd::prelude::*;

verus! {

/// A path as the chooser compares it: as written, and resolved on disk
/// where that succeeded.
#[derive(Debug, Clone)]
pub struct PathKey {
    pub raw: String,
    pub canonical: Option<String>,
}

/// The parts of a path after its root, as `Path::components` yields them:
/// the pieces between separators, skipping empty pieces and `.` pieces.
pub open spec fn path_parts(s: Seq<char>) -> Seq<Seq<char>>
    decreases s.len(),
{
    if s.len() == 0 {
        Seq::empty()
    } else if s[0] == '/' {
        path_parts(s.subrange(1, s.len() as int))
    } else {
        let k = char_index(s, '/');
        proof {
            lemma_char_index_bounds(s, '/');
        }
        let rest = path_parts(s.subrange(k, s.len() as int));
        if s.subrange(0, k) == seq!['.'] {
            rest
        } else {
            seq![s.subrange(0, k)] + rest
        }
    }
}

pub proof fn lemma_char_index_bounds(s: Seq<char>, c: char)
    ensures
        0 <= char_index(s, c) <= s.len(),
        s.len() > 0 && s[0] != c ==> char_index(s, c) >= 1,
    decreases s.len(),
{
    if s.len() > 0 && s[0] != c {
        lemma_char_index_bounds(s.subrange(1, s.len() as int), c);
    }
}

/// A path as `Path` compares it: whether it has a root, and its components
/// (a leading `.` kept as the current directory).
pub open spec fn path_key(s: Seq<char>) -> (bool, Seq<Seq<char>>) {
    let root = s.len() > 0 && s[0] == '/';
    let cur = !root && s.len() > 0 && s[0] == '.' && (s.len() == 1 || s[1] == '/');
    (root, (if cur { seq![seq!['.']] } else { Seq::empty() }) + path_parts(s))
}

/// Two paths name the same file: their resolved forms compared as paths when
/// both resolve, otherwise the paths as written.
pub open spec fn same_path_spec(a: PathKey, b: PathKey) -> bool {
    match (a.canonical, b.canonical) {
        (Some(x), Some(y)) => path_key(x@) == path_key(y@),
        _ => path_key(a.raw@) == path_key(b.raw@),
    }
}

fn path_parts_exec(s: &str) -> (r: Vec<String>)
    ensures
        strings_model(r@) == path_parts(s@),
{
    let cs = chars_of(s);
    let n = cs.len();
    let mut parts: Vec<String> = Vec::new();
    let mut i: usize = 0;
    proof {
        assert(s@.subrange(0, n as int) =~= s@);
        assert(strings_model(parts@) =~= Seq::<Seq<char>>::empty());
    }
    while i < n
        invariant
            n == cs@.len(),
            cs@ == s@,
            i <= n,
            path_parts(s@) == strings_model(parts@) + path_parts(s@.subrange(i as int, n as int)),
        decreases n - i,
    {
        let ghost t = s@.subrange(i as int, n as int);
        if cs[i] == '/' {
            proof {
                assert(t[0] == '/');
                assert(t.subrange(1, t.len() as int) =~= s@.subrange(i + 1, n as int));
            }
            i = i + 1;
        } else {
            let j = find_char(&cs, i, n, '/');
            proof {
                assert(cs@.subrange(i as int, n as int) =~= t);
                lemma_char_index_bounds(t, '/');
                assert(t[0] != '/');
                assert(t.subrange(0, j - i) =~= s@.subrange(i as int, j as int));
                assert(t.subrange(j - i, t.len() as int) =~= s@.subrange(j as int, n as int));
            }
            let is_dot = j == i + 1 && cs[i] == '.';
            proof {
                if is_dot {
                    assert(s@.subrange(i as int, j as int) =~= seq!['.']);
                } else if j == i + 1 {
                    assert(s@.subrange(i as int, j as int)[0] != '.');
                }
            }
            if !is_dot {
                let ghost before = parts@;
                parts.push(piece_string(s, i, j));
                proof {
                    assert(strings_model(parts@) =~= strings_model(before).push(
                        s@.subrange(i as int, j as int),
                    ));
                    assert(strings_model(before) + (seq![s@.subrange(i as int, j as int)]
                        + path_parts(s@.subrange(j as int, n as int))) =~= strings_model(parts@)
                        + path_parts(s@.subrange(j as int, n as int)));
                }
            }
            i = j;
        }
    }
    proof {
        assert(path_parts(s@.subrange(n as int, n as int)) == Seq::<Seq<char>>::empty());
        assert(strings_model(parts@) + Seq::<Seq<char>>::empty() =~= strings_model(parts@));
    }
    parts
}

fn path_key_exec(s: &str) -> (r: (bool, Vec<String>))
    ensures
        r.0 == path_key(s@).0,
        strings_model(r.1@) == path_key(s@).1,
{
    let cs = chars_of(s);
    let n = cs.len();
    let root = n > 0 && cs[0] == '/';
    let cur = !root && n > 0 && cs[0] == '.' && (n == 1 || cs[1] == '/');
    let parts = path_parts_exec(s);
    let mut comps: Vec<String> = Vec::new();
    if cur {
        proof {
            reveal_strlit(".");
        }
        let dot = ".".to_owned();
        assert(dot@ =~= seq!['.']);
        comps.push(dot);
        assert(strings_model(comps@) =~= seq![seq!['.']]);
    }
    let ghost first = comps@;
    let mut k: usize = 0;
    while k < parts.len()
        invariant
            k <= parts@.len(),
            comps@.len() == first.len() + k,
            strings_model(comps@) == strings_model(first) + strings_model(parts@).take(k as int),
        decreases parts@.len() - k,
    {
        let ghost before = comps@;
        comps.push(parts[k].clone());
        proof {
            assert(strings_model(parts@).take(k + 1) =~= strings_model(parts@).take(k as int).push(
                parts@[k as int]@,
            ));
            assert(strings_model(comps@) =~= strings_model(before).push(parts@[k as int]@));
        }
        k = k + 1;
    }
    proof {
        assert(strings_model(parts@).take(parts@.len() as int) =~= strings_model(parts@));
        if !cur {
            assert(strings_model(first) =~= Seq::<Seq<char>>::empty());
        }
    }
    (root, comps)
}

fn strings_eq(a: &Vec<String>, b: &Vec<String>) -> (r: bool)
    ensures
        r == (strings_model(a@) == strings_model(b@)),
{
    if a.len() != b.len() {
        proof {
            assert(strings_model(a@).len() != strings_model(b@).len());
        }
        return false;
    }
    let mut i: usize = 0;
    while i < a.len()
        invariant
            a@.len() == b@.len(),
            i <= a@.len(),
            forall|j: int| 0 <= j < i ==> #[trigger] a@[j]@ == b@[j]@,
        decreases a@.len() - i,
    {
        if !str_eq(a[i].as_str(), b[i].as_str()) {
            proof {
                assert(strings_model(a@)[i as int] != strings_model(b@)[i as int]);
            }
            return false;
        }
        i = i + 1;
    }
    proof {
        assert(strings_model(a@) =~= strings_model(b@));
    }
    true
}

fn same_path_text(a: &str, b: &str) -> (r: bool)
    ensures
        r == (path_key(a@) == path_key(b@)),
{
    let ka = path_key_exec(a);
    let kb = path_key_exec(b);
    ka.0 == kb.0 && strings_eq(&ka.1, &kb.1)
}

pub fn same_path(a: &PathKey, b: &PathKey) -> (r: bool)
    ensures
        r == same_path_spec(*a, *b),
{
    match (&a.canonical, &b.canonical) {
        (Some(x), Some(y)) => same_path_text(x.as_str(), y.as_str()),
        _ => same_path_text(a.raw.as_str(), b.raw.as_str()),
    }
}

/// The position of the first profile whose file is the active one.
pub fn active_profile_index(profiles: &Vec<PathKey>, active: &PathKey) -> (r: Option<usize>)
    ensures
        match r {
            Some(i) => i < profiles@.len() && same_path_spec(profiles@[i as int], *active)
                && forall|j: int| 0 <= j < i ==> !same_path_spec(#[trigger] profiles@[j], *active),
            None => forall|j: int|
                0 <= j < profiles@.len() ==> !same_path_spec(#[trigger] profiles@[j], *active),
        },
{
    let mut i: usize = 0;
    while i < profiles.len()
        invariant
            i <= profiles@.len(),
            forall|j: int| 0 <= j < i ==> !same_path_spec(#[trigger] profiles@[j], *active),
        decreases profiles@.len() - i,
    {
        if same_path(&profiles[i], active) {
            return Some(i);
        }
        i = i + 1;
    }
    None
}

/// What the event loop is asked to do after an action.
#[derive(Debug, Clone)]
pub enum Command {
    /// Nothing beyond redrawing.
    Redraw,
    /// Leave the monitor.
    Quit,
    /// List the profiles, then report them with `profiles_listed`.
    ListProfiles,
    /// Load this profile and make it the active one, then report with
    /// `profile_applied`.
    ApplyProfile(ProfileInfo),
}

/// The state the event loop decides on.
pub struct Session {
    pub profiles: Vec<ProfileInfo>,
    pub active_index: usize,
    pub highlighted_index: usize,
    pub chooser_open: bool,
    pub paused: bool,
    pub message: Option<String>,
}

/// `(h + delta)` wrapped into `0..len` (Euclidean remainder).
pub open spec fn wrapped(h: int, delta: int, len: int) -> int {
    (h + delta) % len
}

/// The highlight position after a chooser refresh: the active profile,
/// clamped to the last one.
pub open spec fn clamped_highlight(active: int, len: int) -> int {
    if len == 0 {
        0
    } else if active < len - 1 {
        active
    } else {
        len - 1
    }
}

impl Session {
    /// The highlighted entry is a profile whenever there is one.
    pub open spec fn wf(&self) -> bool {
        self.profiles@.len() > 0 ==> self.highlighted_index < self.profiles@.len()
    }

    /// A session with no profiles listed yet, running, chooser closed.
    pub fn new() -> (s: Session)
        ensures
            s.wf(),
            s.profiles@.len() == 0,
            s.active_index == 0,
            s.highlighted_index == 0,
            !s.chooser_open,
            !s.paused,
            s.message is None,
    {
        Session {
            profiles: Vec::new(),
            active_index: 0,
            highlighted_index: 0,
            chooser_open: false,
            paused: false,
            message: None,
        }
    }

    /// Take a fresh list of profiles and the position of the active one
    /// (the first when it is not among them); the highlight goes to it.
    pub fn refresh_profiles(&mut self, profiles: Vec<ProfileInfo>, active: Option<usize>)
        ensures
            final(self).wf(),
            final(self).profiles@ == profiles@,
            final(self).active_index == match active {
                Some(i) => i,
                None => 0,
            },
            final(self).highlighted_index == clamped_highlight(
                final(self).active_index as int,
                profiles@.len() as int,
            ),
            final(self).chooser_open == old(self).chooser_open,
            final(self).paused == old(self).paused,
            final(self).message == old(self).message,
    {
        self.active_index = match active {
            Some(i) => i,
            None => 0,
        };
        let n = profiles.len();
        let last = if n == 0 {
            0
        } else {
            n - 1
        };
        self.highlighted_index = if self.active_index < last {
            self.active_index
        } else {
            last
        };
        self.profiles = profiles;
    }

    /// Move the chooser's highlight by `delta`, wrapping around the list;
    /// nothing happens while the chooser is closed or the list is empty.
    pub fn move_highlight(&mut self, delta: i8)
        requires
            old(self).wf(),
        ensures
            final(self).wf(),
            final(self).highlighted_index == if old(self).chooser_open && old(self).profiles@.len()
                > 0 {
                wrapped(
                    old(self).highlighted_index as int,
                    delta as int,
                    old(self).profiles@.len() as int,
                )
            } else {
                old(self).highlighted_index as int
            },
            final(self).profiles@ == old(self).profiles@,
            final(self).active_index == old(self).active_index,
            final(self).chooser_open == old(self).chooser_open,
            final(self).paused == old(self).paused,
            final(self).message == old(self).message,
    {
        let n = self.profiles.len();
        if !self.chooser_open || n == 0 {
            return;
        }
        let h = self.highlighted_index;
        let next: usize = if delta >= 0 {
            let step = (delta as usize) % n;
            if step >= n - h {
                step - (n - h)
            } else {
                h + step
            }
        } else {
            let step = ((-(delta as i16)) as usize) % n;
            if h >= step {
                h - step
            } else {
                n - (step - h)
            }
        };
        proof {
            lemma_wrapped(h as int, delta as int, n as int, next as int);
        }
        self.highlighted_index = next;
    }

    /// The chooser was opened on a fresh list of profiles.
    pub fn chooser_opened(&mut self)
        ensures
            final(self).chooser_open,
            final(self).message is None,
            final(self).profiles@ == old(self).profiles@,
            final(self).active_index == old(self).active_index,
            final(self).highlighted_index == old(self).highlighted_index,
            final(self).paused == old(self).paused,
    {
        self.chooser_open = true;
        self.message = None;
    }

    /// A profile was loaded and made active; the chooser closes.
    pub fn profile_applied(&mut self, name: &str)
        ensures
            !final(self).chooser_open,
            final(self).message matches Some(m) && m@ == message_for_profile(name@),
            final(self).profiles@ == old(self).profiles@,
            final(self).active_index == old(self).active_index,
            final(self).highlighted_index == old(self).highlighted_index,
            final(self).paused == old(self).paused,
    {
        let mut m = "layout: ".to_owned();
        m.append(name);
        self.message = Some(m);
        self.chooser_open = false;
    }

    /// Show a message in the footer.
    pub fn set_message(&mut self, text: String)
        ensures
            final(self).message == Some(text),
            final(self).profiles@ == old(self).profiles@,
            final(self).active_index == old(self).active_index,
            final(self).highlighted_index == old(self).highlighted_index,
            final(self).chooser_open == old(self).chooser_open,
            final(self).paused == old(self).paused,
    {
        self.message = Some(text);
    }

    /// Decide on a user action: what it changes here and what the event loop
    /// must do. Pausing works only while the chooser is closed; cancelling
    /// closes the chooser when it is open and quits otherwise.
    pub fn handle(&mut self, action: Action) -> (c: Command)
        requires
            old(self).wf(),
        ensures
            final(self).wf(),
            final(self).profiles@ == old(self).profiles@,
            final(self).active_index == old(self).active_index,
            final(self).message == old(self).message,
            final(self).paused == if action == Action::TogglePause && !old(self).chooser_open {
                !old(self).paused
            } else {
                old(self).paused
            },
            final(self).chooser_open == (old(self).chooser_open && action != Action::Cancel),
            final(self).highlighted_index == match action {
                Action::MoveProfileUp => if old(self).chooser_open && old(self).profiles@.len() > 0 {
                    wrapped(
                        old(self).highlighted_index as int,
                        -1,
                        old(self).profiles@.len() as int,
                    )
                } else {
                    old(self).highlighted_index as int
                },
                Action::MoveProfileDown => if old(self).chooser_open && old(self).profiles@.len()
                    > 0 {
                    wrapped(
                        old(self).highlighted_index as int,
                        1,
                        old(self).profiles@.len() as int,
                    )
                } else {
                    old(self).highlighted_index as int
                },
                _ => old(self).highlighted_index as int,
            },
            match c {
                Command::Quit => action == Action::Quit || (action == Action::Cancel
                    && !old(self).chooser_open),
                Command::ListProfiles => action == Action::OpenProfiles,
                Command::ApplyProfile(p) => action == Action::SelectProfile && old(self).chooser_open
                    && old(self).highlighted_index < old(self).profiles@.len() && p.name@ == old(
                    self,
                ).profiles@[old(self).highlighted_index as int].name@ && p.path@ == old(
                    self,
                ).profiles@[old(self).highlighted_index as int].path@,
                Command::Redraw => !(action == Action::Quit || (action == Action::Cancel
                    && !old(self).chooser_open) || action == Action::OpenProfiles || (action
                    == Action::SelectProfile && old(self).chooser_open
                    && old(self).highlighted_index < old(self).profiles@.len())),
            },
    {
        match action {
            Action::Quit => Command::Quit,
            Action::TogglePause => {
                if !self.chooser_open {
                    self.paused = !self.paused;
                }
                Command::Redraw
            },
            Action::OpenProfiles => Command::ListProfiles,
            Action::MoveProfileUp => {
                self.move_highlight(-1);
                Command::Redraw
            },
            Action::MoveProfileDown => {
                self.move_highlight(1);
                Command::Redraw
            },
            Action::SelectProfile => {
                if self.chooser_open && self.highlighted_index < self.profiles.len() {
                    let p = &self.profiles[self.highlighted_index];
                    Command::ApplyProfile(ProfileInfo { name: p.name.clone(), path: p.path.clone() })
                } else {
                    Command::Redraw
                }
            },
            Action::Cancel => {
                if self.chooser_open {
                    self.chooser_open = false;
                    Command::Redraw
                } else {
                    Command::Quit
                }
            },
            Action::Idle => Command::Redraw,
        }
    }

    /// The active profile's name for the footer, `unknown` when there is none.
    pub fn active_profile_name(&self) -> (r: String)
        ensures
            r@ == if self.active_index < self.profiles@.len() {
                self.profiles@[self.active_index as int].name@
            } else {
                "unknown"@
            },
    {
        if self.active_index < self.profiles.len() {
            self.profiles[self.active_index].name.clone()
        } else {
            "unknown".to_owned()
        }
    }

    /// The chooser line of profile `index`: `>` where highlighted, `*` where
    /// active, a space, then the name.
    pub fn chooser_line(&self, index: usize) -> (r: String)
        requires
            index < self.profiles@.len(),
        ensures
            r@ == chooser_line_text(
                index == self.highlighted_index,
                index == self.active_index,
                self.profiles@[index as int].name@,
            ),
    {
        let mut r = if index == self.highlighted_index {
            ">".to_owned()
        } else {
            " ".to_owned()
        };
        if index == self.active_index {
            r.append("*");
        } else {
            r.append(" ");
        }
        r.append(" ");
        r.append(self.profiles[index].name.as_str());
        r
    }

    /// How a chooser line is shown: highlighted over active over plain.
    pub fn line_style(&self, index: usize) -> (s: LineStyle)
        ensures
            s == if index == self.highlighted_index {
                LineStyle::Highlighted
            } else if index == self.active_index {
                LineStyle::Active
            } else {
                LineStyle::Plain
            },
    {
        if index == self.highlighted_index {
            LineStyle::Highlighted
        } else if index == self.active_index {
            LineStyle::Active
        } else {
            LineStyle::Plain
        }
    }
}

/// The emphasis of a chooser line.
#[derive(Debug, Clone, Copy, PartialEq, Eq, Structural)]
pub enum LineStyle {
    Highlighted,
    Active,
    Plain,
}

pub open spec fn message_for_profile(name: Seq<char>) -> Seq<char> {
    "layout: "@ + name
}

pub open spec fn chooser_line_text(highlighted: bool, active: bool, name: Seq<char>) -> Seq<char> {
    (if highlighted { ">"@ } else { " "@ }) + (if active { "*"@ } else { " "@ }) + " "@ + name
}

proof fn lemma_wrapped(h: int, delta: int, n: int, next: int)
    requires
        0 <= h < n,
        -128 <= delta <= 127,
        next == if delta >= 0 {
            if h + delta % n >= n {
                h + delta % n - n
            } else {
                h + delta % n
            }
        } else {
            if h >= (-delta) % n {
                h - (-delta) % n
            } else {
                h + n - (-delta) % n
            }
        },
    ensures
        next == wrapped(h, delta, n),
        0 <= next < n,
{
    let x = h + delta;
    if delta >= 0 {
        let m = delta % n;
        let q = delta / n;
        vstd::arithmetic::div_mod::lemma_fundamental_div_mod(delta, n);
        vstd::arithmetic::div_mod::lemma_mod_pos_bound(delta, n);
        if h + m >= n {
            assert(x == (q + 1) * n + next) by (nonlinear_arith)
                requires
                    delta == n * q + m,
                    next == h + m - n,
                    x == h + delta,
            ;
            vstd::arithmetic::div_mod::lemma_fundamental_div_mod_converse(x, n, q + 1, next);
        } else {
            assert(x == q * n + next) by (nonlinear_arith)
                requires
                    delta == n * q + m,
                    next == h + m,
                    x == h + delta,
            ;
            vstd::arithmetic::div_mod::lemma_fundamental_div_mod_converse(x, n, q, next);
        }
    } else {
        let d = -delta;
        let m = d % n;
        let q = d / n;
        vstd::arithmetic::div_mod::lemma_fundamental_div_mod(d, n);
        vstd::arithmetic::div_mod::lemma_mod_pos_bound(d, n);
        if h >= m {
            assert(x == (-q) * n + next) by (nonlinear_arith)
                requires
                    d == n * q + m,
                    next == h - m,
                    x == h - d,
            ;
            vstd::arithmetic::div_mod::lemma_fundamental_div_mod_converse(x, n, -q, next);
        } else {
            assert(x == (-q - 1) * n + next) by (nonlinear_arith)
                requires
                    d == n * q + m,
                    next == h + n - m,
                    x == h - d,
            ;
            vstd::arithmetic::div_mod::lemma_fundamental_div_mod_converse(x, n, -q - 1, next);
        }
    }
}

/// Moving the highlight one place down and then one place up (or up then
/// down) brings it back where it was.
pub proof fn lemma_move_round_trip(h: int, len: int)
    requires
        0 <= h < len,
    ensures
        wrapped(wrapped(h, 1, len), -1, len) == h,
        wrapped(wrapped(h, -1, len), 1, len) == h,
{
    let up = if h + 1 < len { h + 1 } else { 0 };
    let down = if h >= 1 { h - 1 } else { len - 1 };
    if h + 1 < len {
        vstd::arithmetic::div_mod::lemma_fundamental_div_mod_converse(h + 1, len, 0, up);
    } else {
        vstd::arithmetic::div_mod::lemma_fundamental_div_mod_converse(h + 1, len, 1, up);
    }
    if h >= 1 {
        vstd::arithmetic::div_mod::lemma_fundamental_div_mod_converse(h - 1, len, 0, down);
    } else {
        vstd::arithmetic::div_mod::lemma_fundamental_div_mod_converse(h - 1, len, -1, down);
    }
    if up >= 1 {
        vstd::arithmetic::div_mod::lemma_fundamental_div_mod_converse(up - 1, len, 0, h);
    } else {
        vstd::arithmetic::div_mod::lemma_fundamental_div_mod_converse(up - 1, len, -1, h);
    }
    if down + 1 < len {
        vstd::arithmetic::div_mod::lemma_fundamental_div_mod_converse(down + 1, len, 0, h);
    } else {
        vstd::arithmetic::div_mod::lemma_fundamental_div_mod_converse(down + 1, len, 1, h);
    }
}

/// The top-left corner that centres a `width` x `height` box in `area`, and
/// the box clipped to the area.
pub open spec fn centered(width: u16, height: u16, area: Rect) -> Rect {
    crate::layout::spec_rect_new(
        (area.x + (if area.width >= width { area.width - width } else { 0 }) / 2) as u16,
        (area.y + (if area.height >= height { area.height - height } else { 0 }) / 2) as u16,
        if width < area.width { width } else { area.width },
        if height < area.height { height } else { area.height },
    )
}

/// A `width` x `height` rectangle centred in `area`, clipped to it.
pub fn centered_rect(width: u16, height: u16, area: Rect) -> (r: Rect)
    requires
        area.x + area.width <= u16::MAX,
        area.y + area.height <= u16::MAX,
    ensures
        r == centered(width, height, area),
{
    Rect::new(
        area.x + area.width.saturating_sub(width) / 2,
        area.y + area.height.saturating_sub(height) / 2,
        if width < area.width { width } else { area.width },
        if height < area.height { height } else { area.height },
    )
}

/// The chooser popup for `count` profiles: 12 to 56 columns (two fewer than
/// the area), room for the list and its header (at least five rows, two
/// fewer than the area), centred. None where the area is under 12 x 5. The
/// count is taken as a `u16`, as the row arithmetic is done in `u16`.
pub open spec fn popup_rect(area: Rect, count: usize) -> Option<Rect> {
    if area.width < 12 || area.height < 5 {
        None
    } else {
        let w0 = area.width - 2;
        let w1 = if w0 < 56 { w0 } else { 56 };
        let w = if w1 > 12 { w1 } else { 12 };
        let h0 = (count as u16) + 4;
        let h1 = if h0 < area.height - 2 { h0 } else { area.height - 2 };
        let h = if h1 > 5 { h1 } else { 5 };
        Some(centered(w as u16, h as u16, area))
    }
}

/// Where the profile chooser is drawn.
pub fn chooser_popup(area: Rect, count: usize) -> (r: Option<Rect>)
    requires
        area.x + area.width <= u16::MAX,
        area.y + area.height <= u16::MAX,
        (count as u16) + 4 <= u16::MAX,
    ensures
        r == popup_rect(area, count),
{
    if area.width < 12 || area.height < 5 {
        return None;
    }
    let w0 = area.width - 2;
    let w1 = if w0 < 56 { w0 } else { 56 };
    let w = if w1 > 12 { w1 } else { 12 };
    let h0 = count as u16 + 4;
    let h1 = if h0 < area.height - 2 { h0 } else { area.height - 2 };
    let h = if h1 > 5 { h1 } else { 5 };
    Some(centered_rect(w, h, area))
}

/// A chooser line is the name behind a three-column margin: `>` in the
/// first column exactly when the line is highlighted, `*` in the second
/// exactly when it is the active profile's line (highlighted or not), and a
/// space in the third.
pub proof fn lemma_chooser_line_marks(highlighted: bool, active: bool, name: Seq<char>)
    ensures
        ({
            let l = chooser_line_text(highlighted, active, name);
            &&& l.len() == name.len() + 3
            &&& (l[0] == '>') == highlighted
            &&& (l[1] == '*') == active
            &&& l[2] == ' '
            &&& l.subrange(3, l.len() as int) == name
        }),
{
    reveal_strlit(">");
    reveal_strlit(" ");
    reveal_strlit("*");
    let l = chooser_line_text(highlighted, active, name);
    assert(l.subrange(3, l.len() as int) =~= name);
}

} // verus!
