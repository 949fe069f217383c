//! The chat server's messages and the decisions of its per-client reader.
//! (The server's own loop over the messages was never written.)
use vstd::prelude::*;
use vstd::string::StringExecFns;

verus! {

/// Whether [`Sensitive`] values hide their content when displayed.
pub const SAFE_MODE: bool = true;

/// A value whose display is redacted in safe mode.
pub struct Sensitive<T> {
    inner: T,
}

impl<T> Sensitive<T> {
    /// The wrapped value.
    pub closed spec fn value(&self) -> T {
        self.inner
    }

    /// Wraps `inner`.
    pub fn new(inner: T) -> (r: Self)
        ensures
            r.value() == inner,
    {
        Self { inner }
    }

    /// The wrapped value.
    pub fn inner(&self) -> (r: &T)
        ensures
            *r == self.value(),
    {
        &self.inner
    }

    /// Whether the value's display shows the wrapped value's own text (so
    /// that the text is needed by [`Sensitive::display_text`]).
    pub fn reveals_inner(&self) -> (r: bool)
        ensures
            r == !SAFE_MODE,
    {
        !SAFE_MODE
    }

    /// The text the value displays, given the text of the wrapped value:
    /// `[REDACTED]` and a newline in safe mode, else the wrapped value's text
    /// and a newline.
    pub fn display_text(&self, inner_text: &str) -> (r: String)
        ensures
            r@ == if SAFE_MODE {
                "[REDACTED]\n"@
            } else {
                inner_text@ + "\n"@
            },
    {
        if SAFE_MODE {
            String::from_str("[REDACTED]\n")
        } else {
            let mut s = String::from_str(inner_text);
            s.append("\n");
            s
        }
    }
}

/// What a client's thread tells the server.
pub enum Message {
    ClientConnected,
    DisConnected,
    NewMessage(Vec<u8>),
}

/// The size of the buffer a client's thread reads into.
pub const CLIENT_BUFFER_LEN: usize = 64;

/// The outcome of one read from a client's connection.
pub enum ReadOutcome {
    /// This many bytes arrived at the start of the buffer.
    Received(usize),
    /// The read failed.
    Failed,
}

/// What a client's thread does after a read.
pub enum ClientStep {
    /// Send this message to the server and read again.
    Forward(Message),
    /// Send `DisConnected` to the server and stop with an error.
    Disconnect,
}

/// The decision after a read: bytes received are forwarded as a new message
/// (also when there are none), a failed read ends the client.
pub fn client_step(outcome: ReadOutcome, buffer: &Vec<u8>) -> (r: ClientStep)
    requires
        outcome matches ReadOutcome::Received(n) ==> n <= buffer.len(),
    ensures
        match outcome {
            ReadOutcome::Received(n) => r matches ClientStep::Forward(Message::NewMessage(bytes))
                && bytes@ == buffer@.take(n as int),
            ReadOutcome::Failed => r matches ClientStep::Disconnect,
        },
{
    match outcome {
        ReadOutcome::Received(n) => {
            let mut bytes: Vec<u8> = Vec::new();
            let mut i: usize = 0;
            while i < n
                invariant
                    i <= n <= buffer.len(),
                    bytes@ == buffer@.take(i as int),
                decreases n - i,
            {
                bytes.push(buffer[i]);
                assert(bytes@ =~= buffer@.take(i + 1));
                i += 1;
            }
            ClientStep::Forward(Message::NewMessage(bytes))
        },
        ReadOutcome::Failed => ClientStep::Disconnect,
    }
}

} // verus!
