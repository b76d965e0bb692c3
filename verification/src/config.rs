//! Tuning knobs and protocol options.
use vstd::prelude::*;

verus! {

/// The side of the connection a [`WebSocketIO`](crate::WebSocketIO) plays.
///
/// Clients mask every frame they send and expect unmasked frames from the server. Servers send
/// unmasked frames and expect masked frames from the client.
#[derive(Clone, Copy, Debug, PartialEq, Eq, Hash, Structural)]
pub enum Role {
    /// The endpoint that sent the HTTP upgrade request.
    Client,
    /// The endpoint that accepted the HTTP upgrade request.
    Server,
}

/// Tuning knobs and protocol options of a [`WebSocketIO`](crate::WebSocketIO).
///
/// ```ignore
/// let config = Config::default()
///     .read_buffer_size(64 * 1024)
///     .max_frame_size(256 * 1024);
/// ```
#[derive(Clone, Copy, Debug, PartialEq, Eq, Structural)]
pub struct Config {
    pub(crate) read_buffer_size: usize,
    pub(crate) write_buffer_size: usize,
    pub(crate) max_frame_size: usize,
    pub(crate) max_message_size: usize,
    pub(crate) auto_pong: bool,
    pub(crate) defer_close_reply: bool,
    pub(crate) accept_unmasked_frames: bool,
    pub(crate) zero_mask_key: bool,
}

/// The options of a [`Config`].
pub struct ConfigModel {
    /// Size of the read buffer.
    pub read_buffer_size: usize,
    /// Amount of outgoing data that is buffered.
    pub write_buffer_size: usize,
    /// Maximum payload size of outgoing binary frames.
    pub max_frame_size: usize,
    /// Maximum size of incoming text messages.
    pub max_message_size: usize,
    /// Whether pings are answered.
    pub auto_pong: bool,
    /// Whether the reply to the peer's Close frame waits for the local side to close.
    pub defer_close_reply: bool,
    /// Whether a server accepts unmasked frames.
    pub accept_unmasked_frames: bool,
    /// Whether a client masks with an all-zero key.
    pub zero_mask_key: bool,
}

impl View for Config {
    type V = ConfigModel;

    closed spec fn view(&self) -> ConfigModel {
        ConfigModel {
            read_buffer_size: self.read_buffer_size,
            write_buffer_size: self.write_buffer_size,
            max_frame_size: self.max_frame_size,
            max_message_size: self.max_message_size,
            auto_pong: self.auto_pong,
            defer_close_reply: self.defer_close_reply,
            accept_unmasked_frames: self.accept_unmasked_frames,
            zero_mask_key: self.zero_mask_key,
        }
    }
}

impl ConfigModel {
    /// The options that are set by default.
    pub open spec fn default_options() -> ConfigModel {
        ConfigModel {
            read_buffer_size: 0x4000,
            write_buffer_size: 0x4000,
            max_frame_size: 0x1_0000,
            max_message_size: 0x100_0000,
            auto_pong: true,
            defer_close_reply: false,
            accept_unmasked_frames: false,
            zero_mask_key: false,
        }
    }

    /// Sizes that have a lower bound respect it.
    pub open spec fn valid(self) -> bool {
        self.read_buffer_size >= 1024 && self.max_frame_size >= 1
    }

    /// The options with another value of `read_buffer_size`.
    pub open spec fn with_read_buffer_size(self, size: usize) -> ConfigModel {
        ConfigModel { read_buffer_size: if size < 1024 { 1024 } else { size }, ..self }
    }

    /// The options with another value of `write_buffer_size`.
    pub open spec fn with_write_buffer_size(self, size: usize) -> ConfigModel {
        ConfigModel { write_buffer_size: size, ..self }
    }

    /// The options with another value of `max_frame_size`.
    pub open spec fn with_max_frame_size(self, size: usize) -> ConfigModel {
        ConfigModel { max_frame_size: if size < 1 { 1 } else { size }, ..self }
    }

    /// The options with another value of `max_message_size`.
    pub open spec fn with_max_message_size(self, size: usize) -> ConfigModel {
        ConfigModel { max_message_size: size, ..self }
    }

    /// The options with another value of `auto_pong`.
    pub open spec fn with_auto_pong(self, enabled: bool) -> ConfigModel {
        ConfigModel { auto_pong: enabled, ..self }
    }

    /// The options with another value of `defer_close_reply`.
    pub open spec fn with_defer_close_reply(self, enabled: bool) -> ConfigModel {
        ConfigModel { defer_close_reply: enabled, ..self }
    }

    /// The options with another value of `accept_unmasked_frames`.
    pub open spec fn with_accept_unmasked_frames(self, enabled: bool) -> ConfigModel {
        ConfigModel { accept_unmasked_frames: enabled, ..self }
    }

    /// The options with another value of `zero_mask_key`.
    pub open spec fn with_zero_mask_key(self, enabled: bool) -> ConfigModel {
        ConfigModel { zero_mask_key: enabled, ..self }
    }
}

impl Default for Config {
    fn default() -> (config: Config)
        ensures
            config@ == ConfigModel::default_options(),
            config@.valid(),
    {
        Config {
            read_buffer_size: 16 * 1024,
            write_buffer_size: 16 * 1024,
            max_frame_size: 64 * 1024,
            max_message_size: 16 * 1024 * 1024,
            auto_pong: true,
            defer_close_reply: false,
            accept_unmasked_frames: false,
            zero_mask_key: false,
        }
    }
}

impl Config {
    #[verifier::type_invariant]
    pub(crate) closed spec fn sized(self) -> bool {
        self.read_buffer_size >= 1024 && self.max_frame_size >= 1
    }

    /// The options are what the fields hold.
    pub(crate) proof fn lemma_options(&self)
        ensures
            self@ == (ConfigModel {
                read_buffer_size: self.read_buffer_size,
                write_buffer_size: self.write_buffer_size,
                max_frame_size: self.max_frame_size,
                max_message_size: self.max_message_size,
                auto_pong: self.auto_pong,
                defer_close_reply: self.defer_close_reply,
                accept_unmasked_frames: self.accept_unmasked_frames,
                zero_mask_key: self.zero_mask_key,
            }),
            self.sized() ==> self@.valid(),
    {
    }

    /// Size of the internal read buffer, and the amount of data requested from the IO per read.
    ///
    /// The buffer is allocated when data arrives and freed as soon as a read finds nothing more to
    /// read, so idle connections hold no read buffer. Payload of large frames is read straight into
    /// the caller's buffer instead, when this buffer is empty.
    ///
    /// Larger buffers mean fewer reads (and less CPU per byte) when data is queued up, at the cost
    /// of memory per busy connection. Defaults to 16 KiB. Values below 1 KiB are rounded up.
    #[must_use]
    pub fn read_buffer_size(self, size: usize) -> (config: Config)
        ensures
            config@ == (ConfigModel {
                read_buffer_size: if size < 1024 {
                    1024
                } else {
                    size
                },
                ..self@
            }),
            config@ == self@.with_read_buffer_size(size),
    {
        proof {
            use_type_invariant(self);
        }
        Config { read_buffer_size: if size < 1024 { 1024 } else { size }, ..self }
    }

    /// Amount of outgoing data buffered before writes start to drain the buffer to the IO.
    ///
    /// Small writes are coalesced into this buffer and reach the IO on flush, or once the buffer
    /// fills up. Clients also mask their payload into it. The buffer is freed once a flush (or a
    /// pong or Close reply sent by the receiving side) drains it, so idle connections hold no write
    /// buffer.
    ///
    /// Larger buffers mean fewer writes (and less CPU per byte) for streams of small writes, at the
    /// cost of memory per busy connection. Defaults to 16 KiB.
    #[must_use]
    pub fn write_buffer_size(self, size: usize) -> (config: Config)
        ensures
            config@ == (ConfigModel { write_buffer_size: size, ..self@ }),
            config@ == self@.with_write_buffer_size(size),
    {
        proof {
            use_type_invariant(self);
        }
        Config { write_buffer_size: size, ..self }
    }

    /// Maximum payload size of outgoing binary frames.
    ///
    /// A single write never produces a frame larger than this, it accepts only a prefix of the
    /// data instead. Larger frames mean fewer headers and syscalls for large writes, and let the
    /// peer read large payloads straight into its caller's buffer. They also raise memory use:
    /// a client copies (and masks) a whole frame into its write buffer, and when the IO accepts
    /// only a part of an unmasked frame written straight from the caller's buffer, the rest is
    /// copied into the write buffer. Defaults to 64 KiB. Values below 1 byte are rounded up.
    #[must_use]
    pub fn max_frame_size(self, size: usize) -> (config: Config)
        ensures
            config@ == (ConfigModel {
                max_frame_size: if size < 1 {
                    1
                } else {
                    size
                },
                ..self@
            }),
            config@ == self@.with_max_frame_size(size),
    {
        proof {
            use_type_invariant(self);
        }
        Config { max_frame_size: if size < 1 { 1 } else { size }, ..self }
    }

    /// Maximum size of incoming text messages.
    ///
    /// Text messages are assembled in memory before they are handed out, so they need a limit.
    /// Binary data is streamed and is not subject to this limit. Defaults to 16 MiB.
    #[must_use]
    pub fn max_message_size(self, size: usize) -> (config: Config)
        ensures
            config@ == (ConfigModel { max_message_size: size, ..self@ }),
            config@ == self@.with_max_message_size(size),
    {
        proof {
            use_type_invariant(self);
        }
        Config { max_message_size: size, ..self }
    }

    /// Whether received pings are answered automatically. Defaults to `true`.
    ///
    /// Pings are reported to the caller either way.
    #[must_use]
    pub fn auto_pong(self, enabled: bool) -> (config: Config)
        ensures
            config@ == (ConfigModel { auto_pong: enabled, ..self@ }),
            config@ == self@.with_auto_pong(enabled),
    {
        proof {
            use_type_invariant(self);
        }
        Config { auto_pong: enabled, ..self }
    }

    /// Whether the reply to the peer's Close frame waits for the local side to close.
    ///
    /// By default (`false`) the reply is sent as soon as the peer's Close frame is read, which
    /// ends the outgoing stream as well. With `true` the outgoing stream stays open until
    /// [`WebSocketIO::poll_close`](crate::WebSocketIO::poll_close) (or `poll_shutdown`) is called,
    /// which gives TCP-like half-close semantics.
    #[must_use]
    pub fn defer_close_reply(self, enabled: bool) -> (config: Config)
        ensures
            config@ == (ConfigModel { defer_close_reply: enabled, ..self@ }),
            config@ == self@.with_defer_close_reply(enabled),
    {
        proof {
            use_type_invariant(self);
        }
        Config { defer_close_reply: enabled, ..self }
    }

    /// Whether a server accepts unmasked frames from the client. Defaults to `false`.
    ///
    /// RFC 6455 requires servers to fail the connection when a client frame is not masked.
    #[must_use]
    pub fn accept_unmasked_frames(self, enabled: bool) -> (config: Config)
        ensures
            config@ == (ConfigModel { accept_unmasked_frames: enabled, ..self@ }),
            config@ == self@.with_accept_unmasked_frames(enabled),
    {
        proof {
            use_type_invariant(self);
        }
        Config { accept_unmasked_frames: enabled, ..self }
    }

    /// Whether a client masks its frames with an all-zero key. Defaults to `false`.
    ///
    /// The frames stay formally masked (servers accept them), but the payload goes out unchanged,
    /// so the client sends like a server. **This violates RFC 6455**, which requires unpredictable
    /// keys to protect intermediaries that do not understand WebSocket from payloads crafted to
    /// look like HTTP requests. Use it only when an attacker cannot choose the payload, or no such
    /// intermediary can see the plaintext (e.g. TLS terminated by the server).
    #[must_use]
    pub fn zero_mask_key(self, enabled: bool) -> (config: Config)
        ensures
            config@ == (ConfigModel { zero_mask_key: enabled, ..self@ }),
            config@ == self@.with_zero_mask_key(enabled),
    {
        proof {
            use_type_invariant(self);
        }
        Config { zero_mask_key: enabled, ..self }
    }
}

/// The options that are set by default: buffers of 16 KiB, frames of up to 64 KiB and text messages
/// of up to 16 MiB. Pings are answered, and so is the peer's Close frame at once, frames of clients
/// have to be masked, and keys are random.
pub proof fn law_default_options()
    ensures
        ({
            let options = ConfigModel::default_options();
            &&& options.read_buffer_size == 16 * 1024
            &&& options.write_buffer_size == 16 * 1024
            &&& options.max_frame_size == 64 * 1024
            &&& options.max_message_size == 16 * 1024 * 1024
            &&& options.auto_pong
            &&& !options.defer_close_reply
            &&& !options.accept_unmasked_frames
            &&& !options.zero_mask_key
        }),
{
}

/// Each size that is set is what it is set to, but for a read buffer of less than 1 KiB and a frame
/// of no bytes, which are rounded up. Nothing else changes: what was set before stays set.
pub proof fn law_sizes_are_set(options: ConfigModel, size: usize)
    ensures
        ({
            let set = options.with_read_buffer_size(size);
            &&& set == (ConfigModel { read_buffer_size: set.read_buffer_size, ..options })
            &&& size >= 1024 ==> set.read_buffer_size == size
            &&& size <= 1024 ==> set.read_buffer_size == 1024
        }),
        options.with_write_buffer_size(size) == (ConfigModel { write_buffer_size: size, ..options }),
        ({
            let set = options.with_max_frame_size(size);
            &&& set == (ConfigModel { max_frame_size: set.max_frame_size, ..options })
            &&& size > 0 ==> set.max_frame_size == size
            &&& size == 0 ==> set.max_frame_size == 1
        }),
        options.with_max_message_size(size) == (ConfigModel { max_message_size: size, ..options }),
{
}

/// Each switch that is set is what it is set to, and nothing else changes.
pub proof fn law_switches_are_set(options: ConfigModel, enabled: bool)
    ensures
        options.with_auto_pong(enabled) == (ConfigModel { auto_pong: enabled, ..options }),
        options.with_defer_close_reply(enabled) == (ConfigModel {
            defer_close_reply: enabled,
            ..options
        }),
        options.with_accept_unmasked_frames(enabled) == (ConfigModel {
            accept_unmasked_frames: enabled,
            ..options
        }),
        options.with_zero_mask_key(enabled) == (ConfigModel { zero_mask_key: enabled, ..options }),
{
}

} // verus!
