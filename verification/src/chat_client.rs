//! The terminal chat client: its state, how it reacts to input, and what it
//! draws on each refresh.
use vstd::prelude::*;
use vstd::utf8::encode_utf8;

verus! {

/// A rectangle of the terminal, in cells.
#[derive(Clone, Copy)]
pub struct Rect {
    pub x: u16,
    pub y: u16,
    pub h: u16,
    pub w: u16,
}

/// Bytes to write with the cursor moved to column `x`, row `y`.
pub struct Placement {
    pub x: u16,
    pub y: u16,
    pub bytes: Vec<u8>,
}

/// The first `w` bytes of `b`, or all of `b` when it is shorter.
pub open spec fn clip(b: Seq<u8>, w: int) -> Seq<u8> {
    if w <= b.len() {
        b.take(w)
    } else {
        b
    }
}

/// Index of the first chat line shown in a window `h` rows high: the line
/// count less `h`, floored at 0, as the client computes it with `i32`
/// arithmetic and a final `u16` conversion.
pub open spec fn first_shown(n: nat, h: u16) -> int {
    let d = (n as i32) as int - h as int;
    if d > 0 {
        (d as u16) as int
    } else {
        0
    }
}

/// The number of chat lines shown.
pub open spec fn shown_count(n: nat, h: u16) -> int {
    if first_shown(n, h) < n {
        n - first_shown(n, h)
    } else {
        0
    }
}

/// Whether the window's rows can be addressed: the `u16` row of every shown
/// line must not overflow, and the line count, taken as an `i32`, less the
/// height must not underflow.
pub open spec fn window_fits(n: nat, boundary: Rect) -> bool {
    &&& (n as i32) as int - boundary.h as int >= i32::MIN
    &&& forall|r: int|
        0 <= r < shown_count(n, boundary.h) ==> #[trigger] row_of(boundary.y, r) <= u16::MAX
}

/// The terminal row of the `r`th shown line: the window's top row plus `r`
/// taken as a `u16`.
pub open spec fn row_of(top: u16, r: int) -> int {
    top as int + ((r as u16) as int)
}

/// Whether [`window_fits`] holds.
pub fn window_fits_exec(n: usize, boundary: Rect) -> (r: bool)
    ensures
        r == window_fits(n as nat, boundary),
{
    let d: i64 = (#[verifier::truncate] (n as i32)) as i64 - boundary.h as i64;
    if d < i32::MIN as i64 {
        return false;
    }
    let m: u16 = if d > 0 {
        #[verifier::truncate] (d as u16)
    } else {
        0
    };
    assert(m as int == first_shown(n as nat, boundary.h));
    if (m as usize) >= n {
        return true;
    }
    // Rows 0 .. n - m: the largest value of the `u16` row decides.
    let count = n - m as usize;
    let top: u64 = if count > 65536 {
        65535
    } else {
        (count - 1) as u64
    };
    let fits = boundary.y as u64 + top <= 65535;
    proof {
        if fits {
            assert forall|r: int| 0 <= r < shown_count(n as nat, boundary.h) implies #[trigger] row_of(
                boundary.y,
                r,
            ) <= u16::MAX by {
                assert((r as u16) as int <= top);
            }
        } else {
            let r: int = top as int;
            assert(0 <= r < shown_count(n as nat, boundary.h));
            assert((r as u16) as int == r);
            assert(row_of(boundary.y, r) > u16::MAX);
        }
    }
    fits
}

/// The placements that draw `chat` in `boundary`: the last lines that fit,
/// one per row from the top, each cut to the window's width in bytes.
pub open spec fn chat_window_spec(chat: Seq<String>, boundary: Rect) -> Seq<(u16, u16, Seq<u8>)> {
    let m = first_shown(chat.len(), boundary.h);
    Seq::new(
        shown_count(chat.len(), boundary.h) as nat,
        |r: int|
            (
                boundary.x,
                row_of(boundary.y, r) as u16,
                clip(encode_utf8(chat[m + r]@), boundary.w as int),
            ),
    )
}

/// The window holds the last lines of the chat: as many as it has rows, or
/// all of them when there are fewer, oldest at the top (for line counts whose
/// `i32` and `u16` conversions are exact).
pub proof fn lemma_chat_window_shows_last_lines(chat: Seq<String>, boundary: Rect)
    requires
        chat.len() <= i32::MAX,
        chat.len() <= boundary.h + u16::MAX,
    ensures
        ({
            let shown = if chat.len() < boundary.h {
                chat.len() as int
            } else {
                boundary.h as int
            };
            &&& chat_window_spec(chat, boundary).len() == shown
            &&& forall|r: int|
                0 <= r < shown ==> (#[trigger] chat_window_spec(chat, boundary)[r]).2 == clip(
                    encode_utf8(chat[chat.len() - shown + r]@),
                    boundary.w as int,
                )
        }),
{
    let n = chat.len();
    assert((n as i32) as int == n);
    let d = n - boundary.h;
    if d > 0 {
        assert((d as u16) as int == d);
    }
}

/// The client's chat area starts on the top row, so none of its rows can
/// overflow: the refresh layout is available for every terminal of at least
/// two rows whose line count fits in an `i32`.
pub proof fn lemma_chat_area_fits(n: nat, width: u16, height: u16)
    requires
        n <= i32::MAX,
        height >= 2,
    ensures
        window_fits(n, Rect { x: 0, y: 0, w: width, h: (height - 2) as u16 }),
{
    let b = Rect { x: 0, y: 0, w: width, h: (height - 2) as u16 };
    assert((n as i32) as int == n);
    assert forall|r: int| 0 <= r < shown_count(n, b.h) implies #[trigger] row_of(b.y, r)
        <= u16::MAX by {
        assert((r as u16) as int <= u16::MAX);
    }
}

/// Each shown line has its own row, in chat order: the `r`th shown line is
/// drawn at the window's left column, on the row `r` below the window's top.
pub proof fn lemma_chat_window_rows(chat: Seq<String>, boundary: Rect)
    requires
        window_fits(chat.len(), boundary),
    ensures
        forall|r: int|
            0 <= r < chat_window_spec(chat, boundary).len() && r <= u16::MAX ==> {
                &&& (#[trigger] chat_window_spec(chat, boundary)[r]).0 == boundary.x
                &&& chat_window_spec(chat, boundary)[r].1 as int == boundary.y + r
            },
{
    assert forall|r: int|
        0 <= r < chat_window_spec(chat, boundary).len() && r <= u16::MAX implies {
            &&& (#[trigger] chat_window_spec(chat, boundary)[r]).0 == boundary.x
            &&& chat_window_spec(chat, boundary)[r].1 as int == boundary.y + r
        } by {
        assert((r as u16) as int == r);
        assert(row_of(boundary.y, r) <= u16::MAX);
    }
}

pub open spec fn placement_view(p: Placement) -> (u16, u16, Seq<u8>) {
    (p.x, p.y, p.bytes@)
}

/// The bytes of `s`, cut to `w` bytes.
fn clipped_bytes(s: &String, w: u16) -> (r: Vec<u8>)
    ensures
        r@ == clip(encode_utf8(s@), w as int),
{
    let b = s.as_str().as_bytes();
    let n = if (w as usize) <= b.len() {
        w as usize
    } else {
        b.len()
    };
    let mut r: Vec<u8> = Vec::new();
    let mut i: usize = 0;
    while i < n
        invariant
            i <= n <= b@.len(),
            r@ == b@.take(i as int),
        decreases n - i,
    {
        r.push(b[i]);
        assert(r@ =~= b@.take(i + 1));
        i += 1;
    }
    assert(b@.take(b@.len() as int) =~= b@);
    r
}

/// What draws `chat` in `boundary` (see [`chat_window_spec`]).
pub fn chat_window(chat: &Vec<String>, boundary: Rect) -> (r: Vec<Placement>)
    requires
        window_fits(chat.len() as nat, boundary),
    ensures
        r@.map_values(|p: Placement| placement_view(p)) == chat_window_spec(chat@, boundary),
{
    let n = chat.len();
    let d: i32 = (#[verifier::truncate] (n as i32)) - (boundary.h as i32);
    let m: u16 = if d > 0 {
        #[verifier::truncate] (d as u16)
    } else {
        0
    };
    let ghost want = chat_window_spec(chat@, boundary);
    let mut r: Vec<Placement> = Vec::new();
    let mut i: usize = m as usize;
    while i < n
        invariant
            m as int == first_shown(n as nat, boundary.h),
            n == chat.len(),
            m <= i <= n || (i == m && m > n),
            window_fits(n as nat, boundary),
            want == chat_window_spec(chat@, boundary),
            r@.map_values(|p: Placement| placement_view(p)) == want.take(i - m),
        decreases n - i,
    {
        let row = i - m as usize;
        assert(row_of(boundary.y, row as int) <= u16::MAX);
        let y = boundary.y + (#[verifier::truncate] (row as u16));
        let bytes = clipped_bytes(&chat[i], boundary.w);
        let ghost prev = r@;
        assert(row < shown_count(n as nat, boundary.h));
        assert(want[row as int] == (boundary.x, y, bytes@));
        let p = Placement { x: boundary.x, y, bytes };
        r.push(p);
        assert(r@.map_values(|p: Placement| placement_view(p)) =~= prev.map_values(
            |p: Placement| placement_view(p),
        ).push(placement_view(p)));
        assert(want.take(i + 1 - m) =~= want.take(i - m).push(want[row as int]));
        i += 1;
    }
    assert(r@.map_values(|p: Placement| placement_view(p)) =~= want);
    r
}

// ---------------------------------------------------------------------------
// The client's state
// ---------------------------------------------------------------------------

/// The state of the chat client.
pub struct ChatClient {
    /// Terminal width, in cells.
    pub width: u16,
    /// Terminal height, in cells.
    pub height: u16,
    /// The separator line drawn above the prompt: `-` times the width.
    pub bar: String,
    /// What the user is typing.
    pub prompt: String,
    /// The chat so far, oldest first: lines sent and lines received.
    pub chat: Vec<String>,
}

/// `-` repeated `n` times.
pub open spec fn dashes(n: nat) -> Seq<char> {
    Seq::new(n, |i: int| '-')
}

fn dash_line(n: u16) -> (s: String)
    ensures
        s@ == dashes(n as nat),
{
    let mut s = String::new();
    let mut i: u16 = 0;
    while i < n
        invariant
            i <= n,
            s@ == dashes(i as nat),
        decreases n - i,
    {
        s.push('-');
        assert(s@ =~= dashes((i + 1) as nat));
        i += 1;
    }
    s
}

/// What the user did.
pub enum InputEvent {
    /// The terminal now has this width and height.
    Resize(u16, u16),
    /// A character key, and whether Control was held.
    Char(char, bool),
    /// The Enter key.
    Enter,
    /// Any other key or event.
    Other,
}

/// What the client does after an input event.
pub enum InputAction {
    /// Leave the chat.
    Quit,
    /// Send these bytes to the server.
    Send(Vec<u8>),
    /// Go on.
    Continue,
}

/// The bytes that draw the current state.
pub struct Frame {
    /// The chat lines.
    pub chat: Vec<Placement>,
    /// The separator line.
    pub bar: Placement,
    /// The prompt.
    pub prompt: Placement,
}

fn all_bytes(s: &String) -> (r: Vec<u8>)
    ensures
        r@ == encode_utf8(s@),
{
    let b = s.as_str().as_bytes();
    let mut r: Vec<u8> = Vec::new();
    let mut i: usize = 0;
    while i < b.len()
        invariant
            i <= b@.len(),
            r@ == b@.take(i as int),
        decreases b.len() - i,
    {
        r.push(b[i]);
        assert(r@ =~= b@.take(i + 1));
        i += 1;
    }
    assert(b@.take(b@.len() as int) =~= b@);
    r
}

impl ChatClient {
    /// A client for a terminal of this size, with an empty prompt and chat.
    pub fn new(width: u16, height: u16) -> (c: ChatClient)
        ensures
            c.width == width,
            c.height == height,
            c.bar@ == dashes(width as nat),
            c.prompt@.len() == 0,
            c.chat@.len() == 0,
    {
        ChatClient {
            width,
            height,
            bar: dash_line(width),
            prompt: String::new(),
            chat: Vec::new(),
        }
    }

    /// Reacts to an input event: a resize redraws the separator for the new
    /// width; Control-C quits; another character is typed into the prompt;
    /// Enter moves the prompt into the chat and sends its bytes; anything
    /// else is ignored.
    pub fn handle_input(&mut self, event: InputEvent) -> (action: InputAction)
        ensures
            match event {
                InputEvent::Resize(w, h) => {
                    &&& final(self).width == w
                    &&& final(self).height == h
                    &&& final(self).bar@ == dashes(w as nat)
                    &&& final(self).prompt@ == old(self).prompt@
                    &&& final(self).chat@ == old(self).chat@
                    &&& action matches InputAction::Continue
                },
                InputEvent::Char(c, control) => if c == 'c' && control {
                    &&& *final(self) == *old(self)
                    &&& action matches InputAction::Quit
                } else {
                    &&& final(self).width == old(self).width
                    &&& final(self).height == old(self).height
                    &&& final(self).bar@ == old(self).bar@
                    &&& final(self).prompt@ == old(self).prompt@.push(c)
                    &&& final(self).chat@ == old(self).chat@
                    &&& action matches InputAction::Continue
                },
                InputEvent::Enter => {
                    &&& final(self).width == old(self).width
                    &&& final(self).height == old(self).height
                    &&& final(self).bar@ == old(self).bar@
                    &&& final(self).prompt@.len() == 0
                    &&& final(self).chat@ == old(self).chat@.push(old(self).prompt)
                    &&& action matches InputAction::Send(bytes)
                    &&& bytes@ == encode_utf8(old(self).prompt@)
                },
                InputEvent::Other => {
                    &&& *final(self) == *old(self)
                    &&& action matches InputAction::Continue
                },
            },
    {
        match event {
            InputEvent::Resize(w, h) => {
                self.width = w;
                self.height = h;
                self.bar = dash_line(w);
                InputAction::Continue
            },
            InputEvent::Char(c, control) => {
                if c == 'c' && control {
                    InputAction::Quit
                } else {
                    self.prompt.push(c);
                    InputAction::Continue
                }
            },
            InputEvent::Enter => {
                let line = self.prompt.clone();
                self.chat.push(line);
                let bytes = all_bytes(&self.prompt);
                self.prompt = String::new();
                InputAction::Send(bytes)
            },
            InputEvent::Other => InputAction::Continue,
        }
    }

    /// Adds a line received from the server to the chat.
    pub fn receive(&mut self, line: String)
        ensures
            final(self).chat@ == old(self).chat@.push(line),
            final(self).width == old(self).width,
            final(self).height == old(self).height,
            final(self).bar == old(self).bar,
            final(self).prompt == old(self).prompt,
    {
        self.chat.push(line);
    }

    /// The window the chat is drawn in: all rows but the last two.
    pub open spec fn chat_area(&self) -> Rect {
        Rect { x: 0, y: 0, w: self.width, h: (self.height - 2) as u16 }
    }

    /// Whether [`ChatClient::frame`] can lay out the current state: at least
    /// two rows, and a chat window whose rows can be addressed.
    pub fn frame_fits(&self) -> (r: bool)
        ensures
            r == (self.height >= 2 && window_fits(self.chat.len() as nat, self.chat_area())),
    {
        if self.height < 2 {
            return false;
        }
        window_fits_exec(self.chat.len(), Rect { x: 0, y: 0, w: self.width, h: self.height - 2 })
    }

    /// What a refresh draws (after clearing the screen): the chat window
    /// over all rows but the last two, the separator on the row before last,
    /// and the prompt, cut to the width in bytes, on the last row.
    pub fn frame(&self) -> (f: Frame)
        requires
            self.height >= 2,
            window_fits(self.chat.len() as nat, self.chat_area()),
        ensures
            f.chat@.map_values(|p: Placement| placement_view(p)) == chat_window_spec(
                self.chat@,
                self.chat_area(),
            ),
            placement_view(f.bar) == (0u16, (self.height - 2) as u16, encode_utf8(self.bar@)),
            placement_view(f.prompt) == (
                0u16,
                (self.height - 1) as u16,
                clip(encode_utf8(self.prompt@), self.width as int),
            ),
    {
        let area = Rect { x: 0, y: 0, w: self.width, h: self.height - 2 };
        let chat = chat_window(&self.chat, area);
        let bar = Placement { x: 0, y: self.height - 2, bytes: all_bytes(&self.bar) };
        let prompt = Placement {
            x: 0,
            y: self.height - 1,
            bytes: clipped_bytes(&self.prompt, self.width),
        };
        Frame { chat, bar, prompt }
    }
}

} // verus!
