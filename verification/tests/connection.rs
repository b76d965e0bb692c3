//! Connections over an in-memory IO, with hand-crafted frames and against each other.
use bytes::{Bytes, BytesMut};
use websocket_io::frame::OpCode;
use websocket_io::ws::deliver::RecvStep;
use websocket_io::ws::read::ReadStep;
use websocket_io::ws::receive::{ReadOutcome, Signal};
use websocket_io::ws::transmit::{Ack, FlushStep, SendStep, WriteStep};
use websocket_io::{
    CloseCode, CloseFrame, Config, ErrorKind, Outcome, ProtocolError, Recv, Role, WebSocketError,
    WebSocketIO,
};

const KEY: Option<[u8; 4]> = Some([0x37, 0xfa, 0x21, 0x3d]);

const TEXT: u8 = 0x1;
const BINARY: u8 = 0x2;
const CONTINUATION: u8 = 0x0;
const CLOSE: u8 = 0x8;
const PING: u8 = 0x9;
const PONG: u8 = 0xA;

/// xorshift64*, good enough for test data and chaos decisions.
struct Rng(u64);

impl Rng {
    fn new(seed: u64) -> Self {
        Self(seed.wrapping_mul(0x9E37_79B9_7F4A_7C15) | 1)
    }

    fn next(&mut self) -> u64 {
        self.0 ^= self.0 >> 12;
        self.0 ^= self.0 << 25;
        self.0 ^= self.0 >> 27;
        self.0.wrapping_mul(0x2545_F491_4F6C_DD1D)
    }

    /// Uniform in `0..bound`.
    fn below(&mut self, bound: usize) -> usize {
        (self.next() % bound as u64) as usize
    }

    fn bytes(&mut self, len: usize) -> Vec<u8> {
        (0..len).map(|_| self.next() as u8).collect()
    }
}

/// One end of an in-memory connection.
struct Io {
    /// Bytes that the peer has sent.
    input: Vec<u8>,
    consumed: usize,
    eof: bool,
    /// Bytes that have been written to the peer.
    output: Vec<u8>,
    /// How many bytes the output takes before the IO blocks.
    capacity: usize,
    /// With it, reads and writes are split into random pieces and stall now and then.
    chaos: Option<(Rng, usize)>,
    vectored: bool,
    stalled: bool,
    flushes: usize,
    shut_down: bool,
    /// How many bytes were read straight into the caller's buffer.
    read_through: usize,
    /// How many bytes were written straight from the caller's buffer.
    written_through: usize,
}

impl Io {
    fn new(input: &[u8]) -> Self {
        Self {
            input: input.to_vec(),
            consumed: 0,
            eof: false,
            output: Vec::new(),
            capacity: usize::MAX,
            chaos: None,
            vectored: false,
            stalled: false,
            flushes: 0,
            shut_down: false,
            read_through: 0,
            written_through: 0,
        }
    }

    fn chaotic(input: &[u8], seed: u64, max_chunk: usize, vectored: bool) -> Self {
        let mut io = Self::new(input);
        io.chaos = Some((Rng::new(seed), max_chunk));
        io.vectored = vectored;
        io
    }

    fn limit(&mut self) -> Option<usize> {
        self.stalled = false;
        match &mut self.chaos {
            Some((rng, max_chunk)) => {
                if rng.below(4) == 0 {
                    self.stalled = true;
                    return None;
                }
                Some(1 + rng.below(*max_chunk))
            }
            None => Some(usize::MAX),
        }
    }

    /// [`None`] if the IO is not ready, no bytes at its end.
    fn read(&mut self, max: usize) -> Option<Vec<u8>> {
        let limit = self.limit()?;
        let n = (self.input.len() - self.consumed).min(max).min(limit);
        if n == 0 {
            return if self.eof { Some(Vec::new()) } else { None };
        }
        let data = self.input[self.consumed..self.consumed + n].to_vec();
        self.consumed += n;
        Some(data)
    }

    fn write(&mut self, data: &[u8]) -> Outcome {
        let Some(limit) = self.limit() else {
            return Outcome::Pending;
        };
        let n = data.len().min(limit).min(self.capacity - self.output.len().min(self.capacity));
        if n == 0 {
            return Outcome::Pending;
        }
        self.output.extend_from_slice(&data[..n]);
        Outcome::Ready(n)
    }
}

fn fill(ws: &mut WebSocketIO, io: &mut Io) -> Signal {
    match io.read(ws.read_size()) {
        Some(data) => ws.on_read(ReadOutcome::Data(&data)),
        None => ws.on_read(ReadOutcome::Pending),
    }
}

fn shut_down(ws: &mut WebSocketIO, io: &mut Io) -> Signal {
    io.shut_down = true;
    ws.on_shutdown(Ack::Done)
}

fn poll_recv(ws: &mut WebSocketIO, io: &mut Io, dest: &mut [u8]) -> Option<Result<Recv, WebSocketError>> {
    let mut step = ws.poll_recv(dest);
    loop {
        let signal = match step {
            RecvStep::Write(reply) => {
                let outcome = io.write(ws.buffered());
                ws.on_reply_written(reply, outcome)
            }
            RecvStep::Read => fill(ws, io),
            RecvStep::ReadThrough(limit) => {
                let outcome = match io.read(limit) {
                    Some(data) => {
                        dest[..data.len()].copy_from_slice(&data);
                        io.read_through += data.len();
                        Outcome::Ready(data.len())
                    }
                    None => Outcome::Pending,
                };
                step = ws.recv_through(dest, outcome);
                continue;
            }
            RecvStep::Shutdown => shut_down(ws, io),
            RecvStep::Pending => return None,
            RecvStep::Ready(result) => return Some(result),
        };
        step = ws.deliver(signal, dest);
    }
}

fn poll_recv_bytes(ws: &mut WebSocketIO, io: &mut Io) -> Option<Result<Recv<Bytes>, WebSocketError>> {
    let mut step = ws.poll_recv_bytes();
    loop {
        let signal = match step {
            RecvStep::Write(reply) => {
                let outcome = io.write(ws.buffered());
                ws.on_reply_written(reply, outcome)
            }
            RecvStep::Read => fill(ws, io),
            RecvStep::ReadThrough(_) => unreachable!(),
            RecvStep::Shutdown => shut_down(ws, io),
            RecvStep::Pending => return None,
            RecvStep::Ready(result) => return Some(result),
        };
        step = ws.deliver_bytes(signal);
    }
}

fn poll_read(ws: &mut WebSocketIO, io: &mut Io, dest: &mut [u8]) -> Option<Result<usize, WebSocketError>> {
    let (mut step, mut filled) = ws.poll_read(dest);
    loop {
        let signal = match step {
            ReadStep::Write(reply) => {
                let outcome = io.write(ws.buffered());
                ws.on_reply_written(reply, outcome)
            }
            ReadStep::Read => fill(ws, io),
            ReadStep::ReadThrough(limit) => {
                let outcome = match io.read(limit) {
                    Some(data) => {
                        dest[..data.len()].copy_from_slice(&data);
                        io.read_through += data.len();
                        Outcome::Ready(data.len())
                    }
                    None => Outcome::Pending,
                };
                (step, filled) = ws.read_through(dest, outcome);
                continue;
            }
            ReadStep::Shutdown => shut_down(ws, io),
            ReadStep::Pending => return None,
            ReadStep::Ready(result) => return Some(result.map(|()| filled)),
        };
        (step, filled) = ws.resume_read(signal, dest, filled);
    }
}

fn poll_write(ws: &mut WebSocketIO, io: &mut Io, data: &[u8]) -> Option<Result<usize, WebSocketError>> {
    let mut step = ws.poll_write(data, io.vectored);
    loop {
        step = match step {
            WriteStep::Write => {
                let outcome = io.write(ws.buffered());
                ws.resume_write(data, outcome)
            }
            WriteStep::WriteVectored(head) => {
                let accepted = &data[..ws.accepted_len(data.len())];
                let all = [ws.buffered(), head.as_slice(), accepted].concat();
                let before = ws.buffered().len() + head.as_slice().len();
                let outcome = io.write(&all);
                if let Outcome::Ready(n) = outcome {
                    io.written_through += n.saturating_sub(before);
                }
                ws.resume_write_vectored(data, outcome)
            }
            WriteStep::Pending => return None,
            WriteStep::Ready(result) => return Some(result),
        };
    }
}

fn finish_send(
    ws: &mut WebSocketIO,
    io: &mut Io,
    opcode: OpCode,
    payload: &[u8],
    mut step: SendStep,
) -> Option<Result<(), WebSocketError>> {
    loop {
        step = match step {
            SendStep::Write => {
                let outcome = io.write(ws.buffered());
                ws.resume_send(opcode, payload, outcome)
            }
            SendStep::Pending => return None,
            SendStep::Ready(result) => return Some(result),
        };
    }
}

fn poll_send(ws: &mut WebSocketIO, io: &mut Io, opcode: OpCode, payload: &[u8]) -> Option<Result<(), WebSocketError>> {
    let step = match opcode {
        OpCode::Text => ws.poll_send_text(std::str::from_utf8(payload).unwrap()),
        OpCode::Ping => ws.poll_send_ping(payload),
        _ => ws.poll_send_pong(payload),
    };
    finish_send(ws, io, opcode, payload, step)
}

fn finish_flush(
    ws: &mut WebSocketIO,
    io: &mut Io,
    closing: bool,
    mut step: FlushStep,
) -> Option<Result<(), WebSocketError>> {
    loop {
        step = match step {
            FlushStep::Write => {
                let outcome = io.write(ws.buffered());
                ws.resume_flush(outcome)
            }
            FlushStep::Flush => {
                io.flushes += 1;
                if closing {
                    ws.close_flushed(Ack::Done)
                } else {
                    ws.flushed(Ack::Done)
                }
            }
            FlushStep::Shutdown => {
                io.shut_down = true;
                ws.close_shut_down(Ack::Done)
            }
            FlushStep::Pending => return None,
            FlushStep::Ready(result) => return Some(result),
        };
    }
}

fn poll_flush(ws: &mut WebSocketIO, io: &mut Io) -> Option<Result<(), WebSocketError>> {
    let step = ws.poll_flush();
    finish_flush(ws, io, false, step)
}

fn poll_close(ws: &mut WebSocketIO, io: &mut Io, frame: Option<&CloseFrame>) -> Option<Result<(), WebSocketError>> {
    let step = ws.poll_close(frame);
    finish_flush(ws, io, true, step)
}

fn poll_shutdown(ws: &mut WebSocketIO, io: &mut Io) -> Option<Result<(), WebSocketError>> {
    let step = ws.poll_shutdown();
    finish_flush(ws, io, true, step)
}

/// Goes on over random stalls.
fn recv(ws: &mut WebSocketIO, io: &mut Io, dest: &mut [u8]) -> Result<Recv, WebSocketError> {
    loop {
        match poll_recv(ws, io, dest) {
            Some(result) => return result,
            None => assert!(io.stalled, "blocked"),
        }
    }
}

fn recv_bytes(ws: &mut WebSocketIO, io: &mut Io) -> Result<Recv<Bytes>, WebSocketError> {
    loop {
        match poll_recv_bytes(ws, io) {
            Some(result) => return result,
            None => assert!(io.stalled, "blocked"),
        }
    }
}

fn read_to_end(ws: &mut WebSocketIO, io: &mut Io, data: &mut Vec<u8>) -> Result<(), WebSocketError> {
    let mut buf = vec![0; 4096];
    loop {
        match poll_read(ws, io, &mut buf) {
            Some(Ok(0)) => return Ok(()),
            Some(Ok(n)) => data.extend_from_slice(&buf[..n]),
            Some(Err(error)) => return Err(error),
            None => assert!(io.stalled, "blocked"),
        }
    }
}

fn write_all(ws: &mut WebSocketIO, io: &mut Io, mut data: &[u8]) -> Result<(), WebSocketError> {
    while !data.is_empty() {
        match poll_write(ws, io, data) {
            Some(Ok(n)) => data = &data[n..],
            Some(Err(error)) => return Err(error),
            None => assert!(io.stalled, "blocked"),
        }
    }
    Ok(())
}

fn send(ws: &mut WebSocketIO, io: &mut Io, opcode: OpCode, payload: &[u8]) -> Result<(), WebSocketError> {
    loop {
        match poll_send(ws, io, opcode, payload) {
            Some(result) => return result,
            None => assert!(io.stalled, "blocked"),
        }
    }
}

fn flush(ws: &mut WebSocketIO, io: &mut Io) -> Result<(), WebSocketError> {
    loop {
        match poll_flush(ws, io) {
            Some(result) => return result,
            None => assert!(io.stalled, "blocked"),
        }
    }
}

fn close(ws: &mut WebSocketIO, io: &mut Io, frame: Option<&CloseFrame>) -> Result<(), WebSocketError> {
    loop {
        match poll_close(ws, io, frame) {
            Some(result) => return result,
            None => assert!(io.stalled, "blocked"),
        }
    }
}

fn shutdown(ws: &mut WebSocketIO, io: &mut Io) -> Result<(), WebSocketError> {
    loop {
        match poll_shutdown(ws, io) {
            Some(result) => return result,
            None => assert!(io.stalled, "blocked"),
        }
    }
}

/// Encodes a raw frame, independently of the crate's encoder.
fn raw_frame(fin: bool, opcode: u8, mask: Option<[u8; 4]>, payload: &[u8]) -> Vec<u8> {
    let mut out = vec![(u8::from(fin) << 7) | opcode];
    let mask_bit = if mask.is_some() { 0x80 } else { 0 };
    match payload.len() {
        len @ 0..=125 => out.push(mask_bit | len as u8),
        len @ 126..=65535 => {
            out.push(mask_bit | 126);
            out.extend_from_slice(&(len as u16).to_be_bytes());
        }
        len => {
            out.push(mask_bit | 127);
            out.extend_from_slice(&(len as u64).to_be_bytes());
        }
    }
    match mask {
        Some(key) => {
            out.extend_from_slice(&key);
            out.extend(
                payload
                    .iter()
                    .enumerate()
                    .map(|(i, byte)| byte ^ key[i % 4]),
            );
        }
        None => out.extend_from_slice(payload),
    }
    out
}

/// Parses raw frames from `data`, returning `(fin, opcode, unmasked payload)` for each.
fn parse_raw_frames(mut data: &[u8]) -> Vec<(bool, u8, Vec<u8>)> {
    let mut frames = Vec::new();
    while !data.is_empty() {
        let fin = data[0] & 0x80 != 0;
        let opcode = data[0] & 0x0F;
        let masked = data[1] & 0x80 != 0;
        let (len, mut pos) = match data[1] & 0x7F {
            126 => (u16::from_be_bytes([data[2], data[3]]) as usize, 4),
            127 => (
                u64::from_be_bytes(data[2..10].try_into().unwrap()) as usize,
                10,
            ),
            len => (len as usize, 2),
        };
        let mut key = [0; 4];
        if masked {
            key = data[pos..pos + 4].try_into().unwrap();
            pos += 4;
        }
        let mut payload = data[pos..pos + len].to_vec();
        for (i, byte) in payload.iter_mut().enumerate() {
            *byte ^= key[i % 4];
        }
        frames.push((fin, opcode, payload));
        data = &data[pos + len..];
    }
    frames
}

fn expect_violation(frames: &[Vec<u8>], config: Config, expected: ProtocolError) {
    let mut ws = WebSocketIO::new(Role::Server, config);
    let mut io = Io::chaotic(&frames.concat(), 7, 7, false);

    let error = loop {
        match recv(&mut ws, &mut io, &mut [0; 1024]) {
            Ok(_) => continue,
            Err(error) => break error,
        }
    };
    assert_eq!(error.kind(), Some(ErrorKind::InvalidData));
    assert_eq!(error, WebSocketError::Protocol(expected));

    // The connection is failed with a matching status code, and stays failed.
    flush(&mut ws, &mut io).unwrap();
    let written = parse_raw_frames(&io.output);
    let (_, opcode, payload) = written.last().expect("a close frame was sent");
    assert_eq!(*opcode, CLOSE);
    let code = match expected {
        ProtocolError::InvalidUtf8 => 1007,
        ProtocolError::MessageTooLarge => 1009,
        _ => 1002,
    };
    assert_eq!(payload[..], u16::to_be_bytes(code));
    assert_eq!(
        recv(&mut ws, &mut io, &mut [0; 1024]),
        Err(WebSocketError::Failed)
    );
    assert_eq!(
        write_all(&mut ws, &mut io, b"more"),
        Err(WebSocketError::Closed)
    );
}

#[test]
fn protocol_violations() {
    let cases = [
        (
            vec![raw_frame(true, BINARY, None, b"unmasked")],
            ProtocolError::UnmaskedFrame,
        ),
        (
            vec![raw_frame(true, CONTINUATION, KEY, b"x")],
            ProtocolError::UnexpectedContinuation,
        ),
        (
            vec![
                raw_frame(false, BINARY, KEY, b"x"),
                raw_frame(true, TEXT, KEY, b"y"),
            ],
            ProtocolError::ExpectedContinuation,
        ),
        (
            vec![raw_frame(false, PING, KEY, b"x")],
            ProtocolError::FragmentedControlFrame,
        ),
        (
            vec![raw_frame(true, PING, KEY, &[0; 126])],
            ProtocolError::ControlFrameTooLarge,
        ),
        (
            vec![{
                let mut frame = raw_frame(true, BINARY, KEY, b"x");
                frame[0] |= 0x40;
                frame
            }],
            ProtocolError::ReservedBits,
        ),
        (
            vec![raw_frame(true, 0x3, KEY, b"x")],
            ProtocolError::UnknownOpCode(3),
        ),
        (
            vec![raw_frame(true, TEXT, KEY, b"\xff")],
            ProtocolError::InvalidUtf8,
        ),
        (
            // Invalid in the first fragment, detected before the message ends.
            vec![raw_frame(false, TEXT, KEY, b"ok\xc0\x80")],
            ProtocolError::InvalidUtf8,
        ),
        (
            // Truncated code point at the end of the message.
            vec![raw_frame(true, TEXT, KEY, "ż".as_bytes().split_at(1).0)],
            ProtocolError::InvalidUtf8,
        ),
        (
            vec![raw_frame(true, CLOSE, KEY, &1005u16.to_be_bytes())],
            ProtocolError::InvalidCloseCode(1005),
        ),
        (
            vec![raw_frame(true, CLOSE, KEY, &[3])],
            ProtocolError::InvalidClosePayload,
        ),
        (
            vec![vec![0x82, 0xFF, 0x80, 0, 0, 0, 0, 0, 0, 0]],
            ProtocolError::InvalidFrameLength,
        ),
    ];
    for (frames, expected) in cases {
        expect_violation(&frames, Config::default(), expected);
    }

    expect_violation(
        &[
            raw_frame(false, TEXT, KEY, &[b'a'; 60]),
            raw_frame(true, CONTINUATION, KEY, &[b'a'; 60]),
        ],
        Config::default().max_message_size(100),
        ProtocolError::MessageTooLarge,
    );
}

#[test]
fn client_rejects_masked_frames() {
    let mut ws = WebSocketIO::new(Role::Client, Config::default());
    let mut io = Io::new(&raw_frame(true, BINARY, KEY, b"masked"));
    assert_eq!(
        recv(&mut ws, &mut io, &mut [0; 16]),
        Err(WebSocketError::Protocol(ProtocolError::MaskedFrame))
    );
}

#[test]
fn unmasked_frames_can_be_accepted() {
    let mut ws = WebSocketIO::new(Role::Server, Config::default().accept_unmasked_frames(true));
    let mut io = Io::new(&raw_frame(true, BINARY, None, b"plain"));
    let mut buf = [0; 16];
    assert_eq!(
        recv(&mut ws, &mut io, &mut buf),
        Ok(Recv::Binary {
            data: 5,
            end_of_message: true
        })
    );
    assert_eq!(&buf[..5], b"plain");
}

#[test]
fn fragmented_messages_with_interleaved_control_frames() {
    let text = "zażółć gęślą jaźń";
    let (text_a, text_b) = text.as_bytes().split_at(3); // splits 'ż'
    let frames = [
        raw_frame(false, BINARY, KEY, b"frag"),
        raw_frame(true, PING, KEY, b"p1"),
        raw_frame(false, CONTINUATION, KEY, b""),
        raw_frame(true, CONTINUATION, KEY, b"mented"),
        raw_frame(false, TEXT, KEY, text_a),
        raw_frame(true, PONG, KEY, b"p2"),
        raw_frame(true, CONTINUATION, Some([0; 4]), text_b),
        raw_frame(true, BINARY, KEY, b""),
        raw_frame(true, CLOSE, KEY, b"\x03\xe8done"),
    ];
    for (seed, max_chunk) in [(7, 7), (8, 1), (9, 1000)] {
        let mut ws = WebSocketIO::new(Role::Server, Config::default());
        let mut io = Io::chaotic(&frames.concat(), seed, max_chunk, false);

        let mut events = Vec::new();
        let mut data = Vec::new();
        loop {
            match recv_bytes(&mut ws, &mut io).unwrap() {
                Recv::Binary {
                    data: chunk,
                    end_of_message,
                } => {
                    data.extend_from_slice(&chunk);
                    if end_of_message {
                        events.push(Recv::Binary {
                            data: Bytes::from(std::mem::take(&mut data)),
                            end_of_message,
                        });
                    }
                }
                event @ Recv::Close(_) => {
                    events.push(event);
                    break;
                }
                event => events.push(event),
            }
        }

        assert_eq!(
            events,
            [
                Recv::Ping(Bytes::from_static(b"p1")),
                Recv::Binary {
                    data: Bytes::from_static(b"fragmented"),
                    end_of_message: true
                },
                Recv::Pong(Bytes::from_static(b"p2")),
                Recv::Text(text.into()),
                Recv::Binary {
                    data: Bytes::new(),
                    end_of_message: true
                },
                Recv::Close(Some(CloseFrame {
                    code: CloseCode::normal(),
                    reason: "done".into()
                })),
            ]
        );
        assert_eq!(events[0].clone(), events[0]);

        // Pong and the Close reply went out automatically, and the IO was shut down.
        assert!(io.shut_down);
        assert_eq!(
            parse_raw_frames(&io.output),
            [
                (true, PONG, b"p1".to_vec()),
                (true, CLOSE, 1000u16.to_be_bytes().to_vec()),
            ]
        );
    }
}

#[test]
fn pings_answered_by_async_read() {
    let mut ws = WebSocketIO::new(Role::Server, Config::default());
    let frames = [
        raw_frame(true, BINARY, KEY, b"a"),
        raw_frame(true, PING, KEY, b"1"),
        raw_frame(true, PING, KEY, b"2"),
        raw_frame(true, BINARY, KEY, b"b"),
        raw_frame(true, CLOSE, KEY, b""),
    ];
    let mut io = Io::chaotic(&frames.concat(), 7, 7, false);

    let mut data = Vec::new();
    read_to_end(&mut ws, &mut io, &mut data).unwrap();
    assert_eq!(data, b"ab");

    let written = parse_raw_frames(&io.output);
    // Pongs to both pings (or only to the latest one), then the Close reply without a code.
    assert_eq!(written.last(), Some(&(true, CLOSE, Vec::new())));
    let pongs = &written[..written.len() - 1];
    assert!(pongs.iter().all(|(_, opcode, _)| *opcode == PONG));
    assert_eq!(pongs.last().unwrap().2, b"2");
}

#[test]
fn pings_are_reported_but_not_answered_if_disabled() {
    let mut ws = WebSocketIO::new(Role::Server, Config::default().auto_pong(false));
    let mut io = Io::new(&raw_frame(true, PING, KEY, b"1"));
    assert_eq!(
        recv(&mut ws, &mut io, &mut [0; 16]),
        Ok(Recv::Ping(Bytes::from_static(b"1")))
    );
    flush(&mut ws, &mut io).unwrap();
    assert!(io.output.is_empty());
}

#[test]
fn unanswered_pings_are_coalesced() {
    let mut ws = WebSocketIO::new(Role::Server, Config::default().write_buffer_size(100));
    let frames = (0..200u8)
        .map(|i| raw_frame(true, PING, KEY, &[i]))
        .collect::<Vec<_>>();
    let mut io = Io::new(&frames.concat());
    io.capacity = 0;
    for i in 0..200u8 {
        // Receiving never waits for the blocked write.
        assert_eq!(
            recv(&mut ws, &mut io, &mut [0; 16]),
            Ok(Recv::Ping(Bytes::copy_from_slice(&[i])))
        );
        assert!(ws.buffered().len() < 100 + 139);
    }
    io.capacity = usize::MAX;
    flush(&mut ws, &mut io).unwrap();
    let written = parse_raw_frames(&io.output);
    assert!(written.len() < 40);
    assert_eq!(written.last(), Some(&(true, PONG, vec![199])));
}

#[test]
fn text_fails_async_read() {
    let mut ws = WebSocketIO::new(Role::Server, Config::default());
    let mut io = Io::new(&raw_frame(true, TEXT, KEY, b"text"));
    let error = poll_read(&mut ws, &mut io, &mut [0; 16]).unwrap().unwrap_err();
    assert_eq!(error, WebSocketError::TextMessage);
    assert_eq!(error.kind(), Some(ErrorKind::InvalidData));
}

#[test]
fn text_after_data_does_not_take_the_data_away() {
    let mut ws = WebSocketIO::new(Role::Server, Config::default());
    let frames = [
        raw_frame(true, BINARY, KEY, b"data"),
        raw_frame(true, TEXT, KEY, b"text"),
    ];
    let mut io = Io::new(&frames.concat());
    let mut buf = [0; 16];
    assert_eq!(poll_read(&mut ws, &mut io, &mut buf), Some(Ok(4)));
    assert_eq!(&buf[..4], b"data");
    assert_eq!(
        poll_read(&mut ws, &mut io, &mut buf),
        Some(Err(WebSocketError::TextMessage))
    );
}

#[test]
fn errors_after_data_are_deferred() {
    let mut ws = WebSocketIO::new(Role::Server, Config::default());
    let frames = [
        raw_frame(true, BINARY, KEY, b"one"),
        raw_frame(true, BINARY, KEY, b"two"),
        raw_frame(true, 0x3, KEY, b""),
    ];
    let mut io = Io::new(&frames.concat());
    let mut buf = [0; 16];
    // Filled across message boundaries.
    assert_eq!(poll_read(&mut ws, &mut io, &mut buf), Some(Ok(6)));
    assert_eq!(&buf[..6], b"onetwo");
    assert_eq!(
        poll_read(&mut ws, &mut io, &mut buf),
        Some(Err(WebSocketError::Protocol(ProtocolError::UnknownOpCode(3))))
    );
    assert_eq!(
        poll_read(&mut ws, &mut io, &mut buf),
        Some(Err(WebSocketError::Failed))
    );
    assert_eq!(
        parse_raw_frames(&io.output),
        [(true, CLOSE, 1002u16.to_be_bytes().to_vec())]
    );
}

#[test]
fn outgoing_frames() {
    let mut ws = WebSocketIO::new(Role::Client, Config::default().max_frame_size(100));
    let mut io = Io::new(b"");

    write_all(&mut ws, &mut io, &[7; 250]).unwrap();
    send(&mut ws, &mut io, OpCode::Text, b"hi").unwrap();
    send(&mut ws, &mut io, OpCode::Ping, b"ping").unwrap();
    send(&mut ws, &mut io, OpCode::Pong, b"pong").unwrap();
    let error = send(&mut ws, &mut io, OpCode::Ping, &[0; 126]).unwrap_err();
    assert_eq!(error, WebSocketError::ControlTooLarge);
    assert_eq!(error.kind(), Some(ErrorKind::InvalidInput));
    close(
        &mut ws,
        &mut io,
        Some(&CloseFrame {
            code: CloseCode(4000),
            reason: "custom".into(),
        }),
    )
    .unwrap();

    // Every client frame is masked.
    let mut rest = &io.output[..];
    while !rest.is_empty() {
        assert_ne!(rest[1] & 0x80, 0);
        let len = usize::from(rest[1] & 0x7F);
        rest = &rest[2 + 4 + len..];
    }
    assert_eq!(
        parse_raw_frames(&io.output),
        [
            (true, BINARY, vec![7; 100]),
            (true, BINARY, vec![7; 100]),
            (true, BINARY, vec![7; 50]),
            (true, TEXT, b"hi".to_vec()),
            (true, PING, b"ping".to_vec()),
            (true, PONG, b"pong".to_vec()),
            (
                true,
                CLOSE,
                [&4000u16.to_be_bytes()[..], b"custom"].concat()
            ),
        ]
    );
}

#[test]
fn close_frames_are_checked() {
    let mut ws = WebSocketIO::new(Role::Client, Config::default());
    let mut io = Io::new(b"");
    assert_eq!(
        close(&mut ws, &mut io, Some(&CloseFrame::new(CloseCode(1006)))),
        Err(WebSocketError::CloseCode(CloseCode(1006)))
    );
    // Nothing was sent, the connection is still open.
    write_all(&mut ws, &mut io, b"x").unwrap();
    flush(&mut ws, &mut io).unwrap();
    assert_eq!(
        parse_raw_frames(&io.output),
        [(true, BINARY, b"x".to_vec())]
    );
}

#[test]
fn leftover_bytes_from_upgrade() {
    let leftover = raw_frame(true, BINARY, KEY, b"early");
    let mut ws = WebSocketIO::with_read_buf(
        Role::Server,
        Config::default(),
        BytesMut::from(leftover.as_slice()),
    );
    let mut io = Io::new(
        &[
            raw_frame(true, BINARY, KEY, b" bird"),
            raw_frame(true, CLOSE, KEY, b""),
        ]
        .concat(),
    );
    let mut data = Vec::new();
    read_to_end(&mut ws, &mut io, &mut data).unwrap();
    assert_eq!(data, b"early bird");
}

#[test]
fn zero_mask_key() {
    // Vectored, so that large writes take the write-through path.
    let mut ws = WebSocketIO::new(
        Role::Client,
        Config::default()
            .zero_mask_key(true)
            .max_frame_size(256 * 1024),
    );
    let mut io = Io::chaotic(b"", 3, 50_000, true);
    let large = (0..100_000).map(|i| i as u8).collect::<Vec<_>>();

    write_all(&mut ws, &mut io, b"small").unwrap();
    write_all(&mut ws, &mut io, &large).unwrap();
    send(&mut ws, &mut io, OpCode::Text, b"text").unwrap();
    send(&mut ws, &mut io, OpCode::Ping, b"ping").unwrap();
    close(&mut ws, &mut io, None).unwrap();
    assert!(io.written_through > 0);

    // Every frame is masked, with an all-zero key, so the payload is sent as is.
    let mut rest = &io.output[..];
    while !rest.is_empty() {
        assert_ne!(rest[1] & 0x80, 0, "frame is not masked");
        let (len, key_at) = match rest[1] & 0x7F {
            126 => (usize::from(u16::from_be_bytes([rest[2], rest[3]])), 4),
            127 => (
                u64::from_be_bytes(rest[2..10].try_into().unwrap()) as usize,
                10,
            ),
            len => (usize::from(len), 2),
        };
        assert_eq!(rest[key_at..key_at + 4], [0; 4]);
        rest = &rest[key_at + 4 + len..];
    }
    assert_eq!(
        parse_raw_frames(&io.output),
        [
            (true, BINARY, b"small".to_vec()),
            (true, BINARY, large),
            (true, TEXT, b"text".to_vec()),
            (true, PING, b"ping".to_vec()),
            (true, CLOSE, Vec::new()),
        ]
    );
}

#[test]
fn zero_mask_key_with_default_frames() {
    let mut ws = WebSocketIO::new(Role::Client, Config::default().zero_mask_key(true));
    let mut io = Io::chaotic(b"", 3, 50_000, true);
    let large = (0..100_000).map(|i| i as u8).collect::<Vec<_>>();
    write_all(&mut ws, &mut io, b"small").unwrap();
    write_all(&mut ws, &mut io, &large).unwrap();
    close(&mut ws, &mut io, None).unwrap();
    // One frame carries no more than 64 KiB.
    assert_eq!(
        parse_raw_frames(&io.output),
        [
            (true, BINARY, b"small".to_vec()),
            (true, BINARY, large[..65536].to_vec()),
            (true, BINARY, large[65536..].to_vec()),
            (true, CLOSE, Vec::new()),
        ]
    );
}

#[test]
fn close_is_reported_again() {
    let mut ws = WebSocketIO::new(Role::Server, Config::default());
    let mut io = Io::new(&raw_frame(true, CLOSE, KEY, &[0x03, 0xE8]));
    let normal = Some(CloseFrame::new(CloseCode::normal()));
    for _ in 0..3 {
        assert_eq!(
            recv(&mut ws, &mut io, &mut [0; 16]),
            Ok(Recv::Close(normal.clone()))
        );
        assert!(io.shut_down);
    }
    // The IO is not shut down again.
    io.shut_down = false;
    assert_eq!(
        recv(&mut ws, &mut io, &mut [0; 16]),
        Ok(Recv::Close(normal.clone()))
    );
    assert!(!io.shut_down);
    assert_eq!(
        parse_raw_frames(&io.output),
        [(true, CLOSE, vec![0x03, 0xE8])]
    );
}

#[test]
fn large_server_writes_skip_the_buffer() {
    let mut ws = WebSocketIO::new(Role::Server, Config::default());
    let mut io = Io::new(b"");
    io.vectored = true;
    // Smaller than half the write buffer.
    assert_eq!(poll_write(&mut ws, &mut io, &[1; 8191]), Some(Ok(8191)));
    assert!(io.output.is_empty());
    assert_eq!(ws.buffered().len(), 4 + 8191);
    // Half the write buffer: what is buffered goes first.
    assert_eq!(poll_write(&mut ws, &mut io, &[2; 8192]), Some(Ok(8192)));
    assert_eq!(io.written_through, 8192);
    assert!(ws.buffered().is_empty());
    assert_eq!(
        parse_raw_frames(&io.output),
        [(true, BINARY, vec![1; 8191]), (true, BINARY, vec![2; 8192])]
    );

    // Without vectored writes it is buffered.
    io.vectored = false;
    assert_eq!(poll_write(&mut ws, &mut io, &[3; 8192]), Some(Ok(8192)));
    assert_eq!(ws.buffered().len(), 4 + 8192);
}

#[test]
fn large_write_is_all_or_nothing() {
    let mut ws = WebSocketIO::new(Role::Server, Config::default());
    let mut io = Io::new(b"");
    io.vectored = true;
    io.capacity = 0;
    // The IO takes none of it, so nothing is accepted.
    assert_eq!(poll_write(&mut ws, &mut io, &[5; 20_000]), None);
    assert!(ws.buffered().is_empty());
    // The IO takes a single byte of the header, so everything is accepted.
    io.capacity = 1;
    assert_eq!(poll_write(&mut ws, &mut io, &[5; 20_000]), Some(Ok(20_000)));
    assert_eq!(ws.buffered().len(), 4 + 20_000 - 1);
    io.capacity = usize::MAX;
    flush(&mut ws, &mut io).unwrap();
    assert_eq!(
        parse_raw_frames(&io.output),
        [(true, BINARY, vec![5; 20_000])]
    );
}

#[test]
fn full_buffer_is_drained_before_a_write() {
    let mut ws = WebSocketIO::new(Role::Client, Config::default().write_buffer_size(100));
    let mut io = Io::new(b"");
    io.capacity = 0;
    assert_eq!(poll_write(&mut ws, &mut io, &[1; 60]), Some(Ok(60)));
    assert_eq!(poll_write(&mut ws, &mut io, &[2; 60]), None);
    assert_eq!(poll_send(&mut ws, &mut io, OpCode::Ping, &[3; 60]), None);
    io.capacity = usize::MAX;
    assert_eq!(poll_write(&mut ws, &mut io, &[2; 60]), Some(Ok(60)));
    assert_eq!(
        parse_raw_frames(&io.output),
        [(true, BINARY, vec![1; 60])]
    );
    assert_eq!(poll_send(&mut ws, &mut io, OpCode::Ping, &[3; 60]), Some(Ok(())));
    flush(&mut ws, &mut io).unwrap();
    assert_eq!(
        parse_raw_frames(&io.output),
        [
            (true, BINARY, vec![1; 60]),
            (true, BINARY, vec![2; 60]),
            (true, PING, vec![3; 60]),
        ]
    );
}

#[test]
fn failing_io() {
    let mut ws = WebSocketIO::new(Role::Server, Config::default());
    let mut io = Io::new(b"");
    write_all(&mut ws, &mut io, b"x").unwrap();
    assert_eq!(ws.poll_flush(), FlushStep::Write);
    assert_eq!(
        ws.resume_flush(Outcome::Failed),
        FlushStep::Ready(Err(WebSocketError::Io))
    );
    assert_eq!(
        ws.resume_flush(Outcome::Ready(0)),
        FlushStep::Ready(Err(WebSocketError::WriteZero))
    );
    assert_eq!(ws.flushed(Ack::Failed), FlushStep::Ready(Err(WebSocketError::Io)));
    assert!(matches!(
        ws.poll_recv(&mut [0; 16]),
        RecvStep::Read
    ));
    assert!(matches!(
        ws.on_read(ReadOutcome::Failed),
        Signal::Failed(WebSocketError::Io)
    ));
}

/// Moves what has been written to the other side, as far as it fits.
fn transfer(from: &mut Io, to: &mut Io, capacity: usize) {
    let pending = to.input.len() - to.consumed;
    let n = from.output.len().min(capacity.saturating_sub(pending));
    to.input.extend_from_slice(&from.output[..n]);
    from.output.drain(..n);
    if from.shut_down && from.output.is_empty() {
        to.eof = true;
    }
}

/// A side that writes data in random pieces with occasional flushes, then shuts down, and reads
/// everything meanwhile.
struct Side {
    ws: WebSocketIO,
    io: Io,
    data: Vec<u8>,
    written: usize,
    piece: usize,
    rng: Rng,
    max_piece: usize,
    sent: bool,
    received: Vec<u8>,
    ended: bool,
}

impl Side {
    fn new(role: Role, config: Config, io: Io, data: Vec<u8>, seed: u64, max_piece: usize) -> Self {
        Self {
            ws: WebSocketIO::new(role, config),
            io,
            data,
            written: 0,
            piece: 0,
            rng: Rng::new(seed),
            max_piece,
            sent: false,
            received: Vec::new(),
            ended: false,
        }
    }

    fn go_on(&mut self) {
        if self.written < self.data.len() {
            if self.piece == 0 {
                self.piece = 1 + self.rng.below(self.max_piece);
            }
            let end = (self.written + self.piece).min(self.data.len());
            let data = self.data[self.written..end].to_vec();
            if let Some(result) = poll_write(&mut self.ws, &mut self.io, &data) {
                let n = result.unwrap();
                self.written += n;
                self.piece -= n.min(self.piece);
                if self.rng.below(8) == 0 {
                    if let Some(result) = poll_flush(&mut self.ws, &mut self.io) {
                        result.unwrap();
                    }
                }
            }
        } else if !self.sent {
            if let Some(result) = poll_shutdown(&mut self.ws, &mut self.io) {
                result.unwrap();
                self.sent = true;
            }
        }
        if !self.ended {
            let mut buf = vec![0; 1 + self.rng.below(20_000)];
            if let Some(result) = poll_read(&mut self.ws, &mut self.io, &mut buf) {
                let n = result.unwrap();
                self.received.extend_from_slice(&buf[..n]);
                self.ended = n == 0;
            }
        }
    }
}

/// Both sides stream data at each other at the same time and half-close when done.
fn exchange(config: Config, seed: u64, len: usize, max_piece: usize) {
    let vectored = seed % 2 == 0;
    let mut rng = Rng::new(seed);
    let to_server = rng.bytes(len);
    let to_client_len = len / 2 + rng.below(len);
    let to_client = rng.bytes(to_client_len);
    let mut client = Side::new(
        Role::Client,
        config,
        Io::chaotic(b"", seed * 3, 5000, vectored),
        to_server,
        seed + 1,
        max_piece,
    );
    let mut server = Side::new(
        Role::Server,
        config,
        Io::chaotic(b"", seed * 3 + 1, 5000, vectored),
        to_client,
        seed + 2,
        max_piece,
    );
    client.io.capacity = 16 * 1024;
    server.io.capacity = 16 * 1024;
    for _ in 0..10_000_000 {
        client.go_on();
        transfer(&mut client.io, &mut server.io, 8 * 1024);
        server.go_on();
        transfer(&mut server.io, &mut client.io, 8 * 1024);
        if client.ended && server.ended && client.sent && server.sent {
            break;
        }
    }
    assert!(client.received == server.data, "seed {seed}");
    assert!(server.received == client.data, "seed {seed}");
}

#[test]
fn byte_stream_over_chaotic_io() {
    for seed in 0..40 {
        let max_piece = [16, 1024, 100_000][seed as usize % 3];
        let config = Config::default().defer_close_reply(true);
        exchange(config, seed, 300_000, max_piece);
    }
}

#[test]
fn byte_stream_with_other_options() {
    for seed in 0..12 {
        let max_piece = [16, 1024, 100_000][seed as usize % 3];
        let config = Config::default()
            .defer_close_reply(true)
            .zero_mask_key(seed % 4 < 2)
            .read_buffer_size([1024, 3000][seed as usize % 2])
            .write_buffer_size([0, 100, 2000, 20_000][seed as usize % 4])
            .max_frame_size([1, 700, 70_000][seed as usize / 4]);
        exchange(config, seed, 20_000, max_piece);
    }
}

#[test]
fn poll_recv_reports_message_boundaries() {
    let mut client = WebSocketIO::new(Role::Client, Config::default().max_frame_size(1000));
    let mut client_io = Io::chaotic(b"", 1, 300, false);
    let mut server = WebSocketIO::new(Role::Server, Config::default());

    let sizes = [1, 999, 1000, 1001, 2500, 7];
    let mut rng = Rng::new(3);
    let data = sizes.map(|size| rng.bytes(size));
    for message in &data {
        write_all(&mut client, &mut client_io, message).unwrap();
    }
    close(&mut client, &mut client_io, None).unwrap();

    let mut server_io = Io::chaotic(&client_io.output, 2, 300, true);
    let mut messages = Vec::new();
    let mut current = Vec::new();
    let mut buf = vec![0; 700];
    loop {
        match recv(&mut server, &mut server_io, &mut buf).unwrap() {
            Recv::Binary {
                data,
                end_of_message,
            } => {
                current.extend_from_slice(&buf[..data]);
                if end_of_message {
                    messages.push(std::mem::take(&mut current));
                }
            }
            Recv::Close(frame) => {
                assert_eq!(frame, None);
                break;
            }
            other => panic!("unexpected {other:?}"),
        }
    }

    // Every write is a message, capped at `max_frame_size`.
    let expected = data
        .iter()
        .flat_map(|message| message.chunks(1000))
        .map(<[u8]>::to_vec)
        .collect::<Vec<_>>();
    assert_eq!(messages, expected);
}

#[test]
fn recv_bytes_zero_copy() {
    let mut client = WebSocketIO::new(Role::Client, Config::default());
    let mut client_io = Io::new(b"");
    let mut server = WebSocketIO::new(Role::Server, Config::default());
    let data = Rng::new(5).bytes(1_000_000);
    write_all(&mut client, &mut client_io, &data).unwrap();
    close(&mut client, &mut client_io, None).unwrap();

    let mut server_io = Io::new(&client_io.output);
    let mut received = Vec::new();
    loop {
        match recv_bytes(&mut server, &mut server_io).unwrap() {
            Recv::Binary { data, .. } => received.extend_from_slice(&data),
            Recv::Close(_) => break,
            other => panic!("unexpected {other:?}"),
        }
    }
    assert!(received == data);
}

#[test]
fn single_byte_then_flush() {
    for role in [Role::Client, Role::Server] {
        let other = match role {
            Role::Client => Role::Server,
            Role::Server => Role::Client,
        };
        let mut sender = WebSocketIO::new(role, Config::default());
        let mut sender_io = Io::new(b"");
        let mut receiver = WebSocketIO::new(other, Config::default());
        let mut receiver_io = Io::new(b"");

        write_all(&mut sender, &mut sender_io, b"x").unwrap();
        // Buffered until flushed.
        transfer(&mut sender_io, &mut receiver_io, usize::MAX);
        let mut buf = [0; 16];
        assert_eq!(poll_read(&mut receiver, &mut receiver_io, &mut buf), None);

        flush(&mut sender, &mut sender_io).unwrap();
        assert_eq!(sender_io.flushes, 1);
        assert_eq!(
            parse_raw_frames(&sender_io.output),
            [(true, BINARY, b"x".to_vec())]
        );
        transfer(&mut sender_io, &mut receiver_io, usize::MAX);
        assert_eq!(
            poll_read(&mut receiver, &mut receiver_io, &mut buf),
            Some(Ok(1))
        );
        assert_eq!(&buf[..1], b"x");
    }
}

#[test]
fn truncated_stream_is_an_error() {
    let mut client = WebSocketIO::new(Role::Client, Config::default());
    let mut client_io = Io::new(b"");
    let mut server = WebSocketIO::new(Role::Server, Config::default());
    write_all(&mut client, &mut client_io, b"partial").unwrap();
    flush(&mut client, &mut client_io).unwrap();

    let mut server_io = Io::new(&client_io.output);
    server_io.eof = true;
    let mut received = Vec::new();
    let error = read_to_end(&mut server, &mut server_io, &mut received).unwrap_err();
    assert_eq!(error, WebSocketError::UnexpectedEof);
    assert_eq!(error.kind(), Some(ErrorKind::UnexpectedEof));
    assert_eq!(received, b"partial");
    assert_eq!(
        poll_read(&mut server, &mut server_io, &mut [0; 16]),
        Some(Err(WebSocketError::Failed))
    );
}

#[test]
fn close_handshake() {
    let mut client = WebSocketIO::new(Role::Client, Config::default());
    let mut client_io = Io::new(b"");
    let mut server = WebSocketIO::new(Role::Server, Config::default());
    let mut server_io = Io::new(b"");
    let mut buf = [0; 16];

    let frame = CloseFrame {
        code: CloseCode::away(),
        reason: "bye".into(),
    };
    write_all(&mut client, &mut client_io, b"last words").unwrap();
    close(&mut client, &mut client_io, Some(&frame)).unwrap();
    let error = write_all(&mut client, &mut client_io, b"more").unwrap_err();
    assert_eq!(error, WebSocketError::Closed);
    assert_eq!(error.kind(), Some(ErrorKind::BrokenPipe));
    transfer(&mut client_io, &mut server_io, usize::MAX);

    // Data before the close frame is delivered.
    let Recv::Binary { data, .. } = recv(&mut server, &mut server_io, &mut buf).unwrap() else {
        panic!("expected data")
    };
    assert_eq!(&buf[..data], b"last words");
    assert_eq!(
        recv(&mut server, &mut server_io, &mut buf),
        Ok(Recv::Close(Some(frame.clone())))
    );
    // Reported again, the reply has been sent, so writing fails.
    assert_eq!(
        recv(&mut server, &mut server_io, &mut buf),
        Ok(Recv::Close(Some(frame)))
    );
    assert!(server_io.shut_down);
    assert_eq!(
        write_all(&mut server, &mut server_io, b"late").unwrap_err().kind(),
        Some(ErrorKind::BrokenPipe)
    );
    transfer(&mut server_io, &mut client_io, usize::MAX);

    // The client gets the echoed status code.
    assert_eq!(
        recv(&mut client, &mut client_io, &mut buf),
        Ok(Recv::Close(Some(CloseFrame::new(CloseCode::away()))))
    );
    assert!(client_io.shut_down);
}

#[test]
fn half_close() {
    let config = Config::default().defer_close_reply(true);
    let mut client = WebSocketIO::new(Role::Client, config);
    let mut client_io = Io::new(b"");
    let mut server = WebSocketIO::new(Role::Server, config);
    let mut server_io = Io::new(b"");

    write_all(&mut client, &mut client_io, b"request").unwrap();
    shutdown(&mut client, &mut client_io).unwrap();
    transfer(&mut client_io, &mut server_io, usize::MAX);

    let mut request = Vec::new();
    read_to_end(&mut server, &mut server_io, &mut request).unwrap();
    assert_eq!(request, b"request");
    assert!(!server_io.shut_down);

    // The server can still respond after the client finished.
    write_all(&mut server, &mut server_io, b"response").unwrap();
    shutdown(&mut server, &mut server_io).unwrap();
    assert!(server_io.shut_down);
    transfer(&mut server_io, &mut client_io, usize::MAX);

    let mut response = Vec::new();
    read_to_end(&mut client, &mut client_io, &mut response).unwrap();
    assert_eq!(response, b"response");
    assert_eq!(
        parse_raw_frames(&server_io.input).last(),
        Some(&(true, CLOSE, 1000u16.to_be_bytes().to_vec()))
    );
}

#[test]
fn nothing_follows_our_close() {
    let mut ws = WebSocketIO::new(Role::Server, Config::default());
    let mut io = Io::new(
        &[
            raw_frame(true, PING, KEY, b"late"),
            raw_frame(true, BINARY, KEY, b"data"),
            raw_frame(true, 0x3, KEY, b""),
        ]
        .concat(),
    );
    let mut buf = [0; 16];
    write_all(&mut ws, &mut io, b"x").unwrap();
    close(&mut ws, &mut io, None).unwrap();
    let written = io.output.clone();
    assert_eq!(
        parse_raw_frames(&written),
        [(true, BINARY, b"x".to_vec()), (true, CLOSE, Vec::new())]
    );

    // Data is still received, but pings and violations are not answered any more.
    assert_eq!(
        recv(&mut ws, &mut io, &mut buf),
        Ok(Recv::Ping(Bytes::from_static(b"late")))
    );
    assert_eq!(
        recv(&mut ws, &mut io, &mut buf),
        Ok(Recv::Binary {
            data: 4,
            end_of_message: true
        })
    );
    assert_eq!(
        recv(&mut ws, &mut io, &mut buf),
        Err(WebSocketError::Protocol(ProtocolError::UnknownOpCode(3)))
    );
    for opcode in [OpCode::Text, OpCode::Ping, OpCode::Pong] {
        assert_eq!(
            send(&mut ws, &mut io, opcode, b"no"),
            Err(WebSocketError::Closed)
        );
    }
    close(&mut ws, &mut io, None).unwrap();
    flush(&mut ws, &mut io).unwrap();
    assert_eq!(io.output, written);
}

#[test]
fn blocked_close_reply_is_waited_for() {
    let mut ws = WebSocketIO::new(Role::Server, Config::default());
    let mut io = Io::new(&raw_frame(true, CLOSE, KEY, b"\x03\xe9"));
    let mut buf = [0; 16];
    io.capacity = 0;
    assert_eq!(poll_recv(&mut ws, &mut io, &mut buf), None);
    assert!(!io.shut_down);
    io.capacity = 3;
    assert_eq!(poll_recv(&mut ws, &mut io, &mut buf), None);
    io.capacity = usize::MAX;
    assert_eq!(
        poll_recv(&mut ws, &mut io, &mut buf),
        Some(Ok(Recv::Close(Some(CloseFrame::new(CloseCode::away())))))
    );
    assert!(io.shut_down);
    assert_eq!(
        parse_raw_frames(&io.output),
        [(true, CLOSE, 1001u16.to_be_bytes().to_vec())]
    );
}

#[test]
fn failed_close_reply_still_shuts_down() {
    let mut ws = WebSocketIO::new(Role::Server, Config::default());
    assert!(matches!(ws.poll_recv_bytes(), RecvStep::Read));
    let signal = ws.on_read(ReadOutcome::Data(&raw_frame(true, CLOSE, KEY, b"")));
    let Signal::Write(reply) = signal else {
        panic!("expected a reply")
    };
    assert!(!ws.buffered().is_empty());
    assert!(matches!(
        ws.on_reply_written(reply, Outcome::Failed),
        Signal::Shutdown
    ));
    assert!(ws.buffered().is_empty());
    assert!(matches!(ws.on_shutdown(Ack::Failed), Signal::Closed(None)));
    assert!(matches!(
        ws.poll_recv_bytes(),
        RecvStep::Ready(Ok(Recv::Close(None)))
    ));
}

#[test]
fn failed_pong_fails_the_connection() {
    let mut ws = WebSocketIO::new(Role::Server, Config::default());
    assert!(matches!(ws.poll_recv_bytes(), RecvStep::Read));
    let Signal::Write(reply) = ws.on_read(ReadOutcome::Data(&raw_frame(true, PING, KEY, b"p")))
    else {
        panic!("expected a reply")
    };
    assert!(matches!(
        ws.on_reply_written(reply, Outcome::Ready(0)),
        Signal::Failed(WebSocketError::WriteZero)
    ));
    assert!(matches!(
        ws.poll_recv_bytes(),
        RecvStep::Ready(Err(WebSocketError::Failed))
    ));
}

#[test]
fn eof_after_our_close_is_a_close() {
    let mut ws = WebSocketIO::new(Role::Client, Config::default());
    let mut io = Io::new(b"");
    io.eof = true;
    shutdown(&mut ws, &mut io).unwrap();
    assert_eq!(recv(&mut ws, &mut io, &mut [0; 16]), Ok(Recv::Close(None)));
    assert!(io.shut_down);
}

#[test]
fn eof_between_frames_after_our_close_is_a_close() {
    let mut ws = WebSocketIO::new(Role::Client, Config::default());
    let mut io = Io::new(&raw_frame(true, BINARY, None, b"data"));
    io.eof = true;
    shutdown(&mut ws, &mut io).unwrap();
    let mut data = Vec::new();
    read_to_end(&mut ws, &mut io, &mut data).unwrap();
    assert_eq!(data, b"data");
    assert_eq!(recv(&mut ws, &mut io, &mut [0; 16]), Ok(Recv::Close(None)));
}

#[test]
fn eof_inside_a_frame_after_our_close_is_an_error() {
    let frames = [
        raw_frame(true, BINARY, None, b"some data"),
        raw_frame(true, TEXT, None, b"some text"),
        raw_frame(true, PING, None, b"some ping"),
        raw_frame(true, BINARY, None, &[7; 20_000]),
    ];
    for frame in &frames {
        for cut in 1..frame.len().min(11) {
            let mut ws = WebSocketIO::new(Role::Client, Config::default());
            let mut io = Io::new(&frame[..cut]);
            io.eof = true;
            shutdown(&mut ws, &mut io).unwrap();
            // Large enough for the frame to be read straight into it.
            let mut buf = vec![0; 32 * 1024];
            let mut received = Vec::new();
            let error = loop {
                match recv(&mut ws, &mut io, &mut buf) {
                    Ok(Recv::Binary { data, .. }) => received.extend_from_slice(&buf[..data]),
                    Ok(other) => panic!("unexpected {other:?}"),
                    Err(error) => break error,
                }
            };
            assert_eq!(error, WebSocketError::UnexpectedEof);
            assert_eq!(error.kind(), Some(ErrorKind::UnexpectedEof));
            assert!(!io.shut_down);
            assert_eq!(
                recv(&mut ws, &mut io, &mut buf),
                Err(WebSocketError::Failed)
            );

            // The same for reads.
            let mut ws = WebSocketIO::new(Role::Client, Config::default());
            let mut io = Io::new(&frame[..cut]);
            io.eof = true;
            shutdown(&mut ws, &mut io).unwrap();
            let mut data = Vec::new();
            assert_eq!(
                read_to_end(&mut ws, &mut io, &mut data),
                Err(WebSocketError::UnexpectedEof)
            );
            assert_eq!(data, received);
        }
    }
}

#[test]
fn pong_outlasts_a_write_past_a_full_buffer() {
    // The IO takes all of the large write, or a single byte of it.
    for taken in [usize::MAX, 122 + 1] {
        let mut ws = WebSocketIO::new(Role::Server, Config::default().write_buffer_size(100));
        let mut io = Io::new(&raw_frame(true, PING, KEY, b"?"));
        io.capacity = 0;
        assert_eq!(poll_write(&mut ws, &mut io, &[1; 120]), Some(Ok(120)));
        assert_eq!(ws.buffered().len(), 122);
        // The buffer is full, so the pong waits.
        assert_eq!(
            recv(&mut ws, &mut io, &mut [0; 16]),
            Ok(Recv::Ping(Bytes::from_static(b"?")))
        );
        assert_eq!(ws.buffered().len(), 122);
        io.vectored = true;
        io.capacity = taken;
        assert_eq!(poll_write(&mut ws, &mut io, &[2; 60]), Some(Ok(60)));
        assert_eq!(io.output.len(), taken.min(122 + 62));
        // Receiving writes the pong, without a flush or another ping.
        io.capacity = usize::MAX;
        assert_eq!(poll_recv(&mut ws, &mut io, &mut [0; 16]), None);
        assert_eq!(
            parse_raw_frames(&io.output),
            [
                (true, BINARY, vec![1; 120]),
                (true, BINARY, vec![2; 60]),
                (true, PONG, b"?".to_vec()),
            ]
        );
        assert!(ws.buffered().is_empty());
    }
}

#[test]
fn pings_are_answered_without_a_write_buffer() {
    let mut ws = WebSocketIO::with_read_buf(
        Role::Server,
        Config::default().write_buffer_size(0),
        BytesMut::from(&[0x89, 0x82, 0, 0, 0, 0, b'p', b'1'][..]),
    );
    let mut io = Io::new(b"");
    assert_eq!(
        poll_recv_bytes(&mut ws, &mut io),
        Some(Ok(Recv::Ping(Bytes::from_static(b"p1"))))
    );
    assert_eq!(io.output, [0x8A, 0x02, b'p', b'1']);
    assert_eq!(io.flushes, 0);

    // While the IO is blocked, a single pong is buffered, and the latest one waits.
    let pings = [&b"a"[..], b"b", b"c"].map(|payload| raw_frame(true, PING, KEY, payload));
    let mut io = Io::new(&pings.concat());
    io.capacity = 0;
    for payload in [&b"a"[..], b"b", b"c"] {
        assert_eq!(
            recv(&mut ws, &mut io, &mut [0; 16]),
            Ok(Recv::Ping(Bytes::from_static(payload)))
        );
        assert_eq!(ws.buffered(), [0x8A, 0x01, b'a']);
    }
    io.capacity = usize::MAX;
    assert_eq!(poll_recv(&mut ws, &mut io, &mut [0; 16]), None);
    assert_eq!(
        parse_raw_frames(&io.output),
        [(true, PONG, b"a".to_vec()), (true, PONG, b"c".to_vec())]
    );
}

#[test]
fn ping_pong_and_text() {
    let mut client = WebSocketIO::new(Role::Client, Config::default());
    let mut client_io = Io::new(b"");
    let mut server = WebSocketIO::new(Role::Server, Config::default());
    let mut buf = [0; 16];

    let long_text = "żółw 🐢 ".repeat(20_000);
    send(&mut client, &mut client_io, OpCode::Ping, b"are you there").unwrap();
    send(&mut client, &mut client_io, OpCode::Text, long_text.as_bytes()).unwrap();
    write_all(&mut client, &mut client_io, b"bytes").unwrap();
    flush(&mut client, &mut client_io).unwrap();

    let mut server_io = Io::chaotic(&client_io.output, 4, 3000, false);
    assert_eq!(
        recv(&mut server, &mut server_io, &mut buf),
        Ok(Recv::Ping(Bytes::from_static(b"are you there")))
    );
    let Recv::Text(text) = recv(&mut server, &mut server_io, &mut buf).unwrap() else {
        panic!("expected text")
    };
    assert_eq!(text, long_text.as_str());
    let Recv::Binary { data, .. } = recv(&mut server, &mut server_io, &mut buf).unwrap() else {
        panic!("expected data")
    };
    assert_eq!(&buf[..data], b"bytes");
    // The pong was sent by the server's receiving side, without an explicit flush.
    let mut client_io = Io::new(&server_io.output);
    assert_eq!(
        recv(&mut client, &mut client_io, &mut buf),
        Ok(Recv::Pong(Bytes::from_static(b"are you there")))
    );
}

#[test]
fn read_through_large_frames() {
    // Large reads into an empty read buffer bypass it; exercise both roles.
    for (sender_role, receiver_role) in [(Role::Client, Role::Server), (Role::Server, Role::Client)]
    {
        let config = Config::default().max_frame_size(1024 * 1024);
        let mut sender = WebSocketIO::new(sender_role, config);
        let mut receiver = WebSocketIO::new(receiver_role, config);
        let data = Rng::new(9).bytes(4 * 1024 * 1024);
        let mut sender_io = Io::new(b"");
        sender_io.vectored = true;
        write_all(&mut sender, &mut sender_io, &data).unwrap();
        shutdown(&mut sender, &mut sender_io).unwrap();

        let mut receiver_io = Io::chaotic(&sender_io.output, 11, 100_000, true);
        let mut received = Vec::new();
        let mut buf = vec![0; 512 * 1024];
        loop {
            match poll_read(&mut receiver, &mut receiver_io, &mut buf) {
                Some(result) => {
                    let n = result.unwrap();
                    if n == 0 {
                        break;
                    }
                    received.extend_from_slice(&buf[..n]);
                }
                None => assert!(receiver_io.stalled),
            }
        }
        assert!(received == data);
        assert!(receiver_io.read_through > 1024 * 1024);

        let mut receiver = WebSocketIO::new(receiver_role, config);
        let mut receiver_io = Io::chaotic(&sender_io.output, 12, 100_000, true);
        let mut received = Vec::new();
        loop {
            match recv(&mut receiver, &mut receiver_io, &mut buf).unwrap() {
                Recv::Binary { data, .. } => received.extend_from_slice(&buf[..data]),
                Recv::Close(_) => break,
                other => panic!("unexpected {other:?}"),
            }
        }
        assert!(received == data);
        assert!(receiver_io.read_through > 1024 * 1024);
    }
}

#[test]
fn full_buffer_takes_no_data() {
    let mut ws = WebSocketIO::new(Role::Server, Config::default());
    let mut io = Io::new(&raw_frame(true, BINARY, KEY, b"data"));
    assert_eq!(
        recv(&mut ws, &mut io, &mut []),
        Ok(Recv::Binary {
            data: 0,
            end_of_message: false
        })
    );
    let mut buf = [0; 3];
    assert_eq!(
        recv(&mut ws, &mut io, &mut buf),
        Ok(Recv::Binary {
            data: 3,
            end_of_message: false
        })
    );
    assert_eq!(&buf, b"dat");
    assert_eq!(
        recv(&mut ws, &mut io, &mut buf),
        Ok(Recv::Binary {
            data: 1,
            end_of_message: true
        })
    );
    assert_eq!(buf[0], b'a');
}

#[test]
fn gathered_slices() {
    let slices: [&[u8]; 4] = [b"ab", b"", b"cde", b"f"];
    assert_eq!(websocket_io::send::gather(&slices, 100), b"abcdef");
    assert_eq!(websocket_io::send::gather(&slices, 4), b"abcd");
    assert_eq!(websocket_io::send::gather(&slices, 0), b"");
    assert_eq!(websocket_io::send::gather(&[], 5), b"");
}

#[test]
fn room_and_sizes() {
    let config = Config::default().read_buffer_size(1).max_frame_size(0);
    let ws = WebSocketIO::new(Role::Server, config);
    assert_eq!(ws.read_size(), 1024);
    assert_eq!(ws.accepted_len(10), 1);
    assert_eq!(ws.role(), Role::Server);
    assert_eq!(*ws.config(), config);
    assert!(ws.is_roomy());
    // A single byte of it is accepted.
    assert!(ws.fits_write(usize::MAX));
    assert!(ws.fits_send(OpCode::Text, 1 << 20));
    assert!(!ws.fits_send(OpCode::Text, usize::MAX));
    // These are refused.
    assert!(ws.fits_send(OpCode::Ping, usize::MAX));
    assert!(ws.fits_send(OpCode::Pong, 126));
    let ws = WebSocketIO::new(Role::Server, Config::default().max_frame_size(usize::MAX));
    assert!(ws.fits_write(0));
    assert!(ws.fits_write(1 << 20));
    assert!(!ws.fits_write(usize::MAX));
    let mut ws = WebSocketIO::new(Role::Server, Config::default().max_frame_size(usize::MAX));
    close(&mut ws, &mut Io::new(b""), None).unwrap();
    assert!(ws.fits_write(usize::MAX));
    assert!(ws.fits_send(OpCode::Text, usize::MAX));
    let ws = WebSocketIO::new(Role::Client, Config::default());
    assert_eq!(ws.read_size(), 16 * 1024);
    assert_eq!(ws.accepted_len(1 << 20), 64 * 1024);
}
