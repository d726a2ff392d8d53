//! Wire protocol between the server and a strap.
//!
//! A frame sent by the strap (`CommandClient`) starts with two header
//! bytes, the command type and the frame's total length in bytes, followed
//! by the command's data. A command sent to the strap (`CommandServer`) is
//! one line of upper-case hexadecimal text.
use vstd::prelude::*;
use vstd::utf8::{decode_utf8, valid_utf8};

verus! {

/// A cursor over received bytes; each read consumes bytes from the front.
pub struct Reader<'a> {
    data: &'a [u8],
}

impl<'a> View for Reader<'a> {
    type V = Seq<u8>;

    /// The bytes that have not been read yet.
    closed spec fn view(&self) -> Seq<u8> {
        self.data@
    }
}

impl<'a> Reader<'a> {
    /// A reader positioned at the first byte of `data`.
    pub fn new(data: &'a [u8]) -> (r: Self)
        ensures
            r@ == data@,
    {
        Self { data }
    }

    /// Reads one byte; `None`, with nothing consumed, when no byte is left.
    pub fn u8(&mut self) -> (r: Option<u8>)
        ensures
            old(self)@.len() == 0 ==> r is None && final(self)@ == old(self)@,
            old(self)@.len() > 0 ==> r == Some(old(self)@[0]) && final(self)@ == old(self)@.drop_first(),
    {
        if self.data.len() == 0 {
            return None;
        }
        let (first, rest) = self.data.split_at(1);
        self.data = rest;
        Some(first[0])
    }

    /// Reads a little-endian `u16`. With a single byte left, that byte is
    /// consumed and the result is `None`.
    pub fn u16(&mut self) -> (r: Option<u16>)
        ensures
            old(self)@.len() >= 2 ==> r == Some((old(self)@[0] + 256 * old(self)@[1]) as u16)
                && final(self)@ == old(self)@.skip(2),
            old(self)@.len() < 2 ==> r is None && final(self)@ == old(self)@.skip(
                old(self)@.len() as int,
            ),
    {
        let lo = self.u8()?;
        let hi = self.u8()?;
        Some(lo as u16 + 256 * (hi as u16))
    }

    /// Reads the next `split` bytes.
    pub fn take(&mut self, split: usize) -> (r: Option<&'a [u8]>)
        requires
            split <= old(self)@.len(),
        ensures
            r matches Some(b) && b@ == old(self)@.take(split as int),
            final(self)@ == old(self)@.skip(split as int),
    {
        let (left, right) = self.data.split_at(split);
        self.data = right;
        Some(left)
    }

    /// Reads all remaining bytes.
    pub fn rest(&mut self) -> (r: Option<&'a [u8]>)
        ensures
            r matches Some(b) && b@ == old(self)@,
            final(self)@.len() == 0,
    {
        let n = self.data.len();
        let (all, none) = self.data.split_at(n);
        self.data = none;
        Some(all)
    }

    /// Whether the frame at the front is malformed (see `frame_malformed`).
    pub fn front_malformed(&self) -> (b: bool)
        ensures
            b == frame_malformed(self@),
    {
        let d = self.data;
        if d.len() >= 3 && d[0] == 1 && d[1] >= 4 {
            let n = d[1] as usize;
            if d.len() < n {
                true
            } else {
                let (frame, _) = d.split_at(n);
                let (_, name) = frame.split_at(3);
                assert(name@ == d@.subrange(3, n as int));
                crate::text::utf8_to_string(name).is_none()
            }
        } else {
            false
        }
    }
}

/// The upper-case hexadecimal digit of `n`, for `n` below 16.
pub open spec fn hex_digit(n: int) -> u8 {
    if n < 10 {
        (48 + n) as u8
    } else {
        (55 + n) as u8
    }
}

/// Two hexadecimal digits of a byte, most significant first.
pub open spec fn hex_u8(v: u8) -> Seq<u8> {
    seq![hex_digit(v as int / 16), hex_digit(v as int % 16)]
}

/// Four hexadecimal digits of a `u16`, most significant first.
pub open spec fn hex_u16(v: u16) -> Seq<u8> {
    seq![
        hex_digit(v as int / 4096),
        hex_digit((v as int / 256) % 16),
        hex_digit((v as int / 16) % 16),
        hex_digit(v as int % 16),
    ]
}

/// The value a reader gives to an upper-case hexadecimal digit: `0`-`9`
/// count 0 to 9, `A`-`F` count 10 to 15.
pub open spec fn hex_value(b: u8) -> int {
    if 48 <= b <= 57 {
        b - 48
    } else {
        b - 55
    }
}

/// The number that hexadecimal text `t` writes, most significant digit
/// first.
pub open spec fn hex_text_value(t: Seq<u8>) -> int
    decreases t.len(),
{
    if t.len() == 0 {
        0
    } else {
        hex_text_value(t.drop_last()) * 16 + hex_value(t.last())
    }
}

/// A command for the strap.
#[derive(Debug, PartialEq, Eq, Structural, Copy, Clone)]
pub enum CommandServer {
    /// Drive haptic `channel` at `strength` (0 none, 255 max) for
    /// `duration` milliseconds.
    Haptic { channel: u8, strength: u8, duration: u16 },
}

/// The line that carries `cmd`: channel and strength as two hexadecimal
/// digits each, the duration as four, then a line feed.
pub open spec fn server_line(cmd: CommandServer) -> Seq<u8> {
    match cmd {
        CommandServer::Haptic { channel, strength, duration } => hex_u8(channel) + hex_u8(strength)
            + hex_u16(duration) + seq![10u8],
    }
}

fn hex_digit_exec(n: u8) -> (d: u8)
    requires
        n < 16,
    ensures
        d == hex_digit(n as int),
{
    if n < 10 {
        48 + n
    } else {
        55 + n
    }
}

impl CommandServer {
    /// The bytes sent to the strap for this command.
    pub fn as_bytes(&self) -> (r: Vec<u8>)
        ensures
            r@ == server_line(*self),
            match *self {
                CommandServer::Haptic { channel, strength, duration } => {
                    &&& hex_text_value(r@.subrange(0, 2)) == channel
                    &&& hex_text_value(r@.subrange(2, 4)) == strength
                    &&& hex_text_value(r@.subrange(4, 8)) == duration
                    &&& r@.len() == 9
                    &&& r@[8] == 10
                },
            },
    {
        proof {
            lemma_server_line_reads_back(*self);
        }
        match *self {
            CommandServer::Haptic { channel, strength, duration } => {
                let mut v: Vec<u8> = Vec::new();
                v.push(hex_digit_exec(channel / 16));
                v.push(hex_digit_exec(channel % 16));
                v.push(hex_digit_exec(strength / 16));
                v.push(hex_digit_exec(strength % 16));
                v.push(hex_digit_exec((duration / 4096) as u8));
                v.push(hex_digit_exec(((duration / 256) % 16) as u8));
                v.push(hex_digit_exec(((duration / 16) % 16) as u8));
                v.push(hex_digit_exec((duration % 16) as u8));
                v.push(10u8);
                assert(v@ =~= server_line(*self));
                v
            },
        }
    }
}

/// Two commands with the same line are the same command: the strap can
/// tell every command from its line.
pub proof fn lemma_server_line_injective(a: CommandServer, b: CommandServer)
    requires
        server_line(a) == server_line(b),
    ensures
        a == b,
{
    lemma_server_line_reads_back(a);
    lemma_server_line_reads_back(b);
}

} // verus!

verus! {

/// A command received from the strap.
#[derive(Debug, PartialEq, Clone)]
pub enum CommandClient {
    Connected,
    Disconnect,
    /// The strap has a haptic on `channel`, called `name`.
    Info { channel: u8, name: String },
    /// The strap's battery level.
    Battery { level: u8 },
    Invalid,
}

/// `CommandClient` with its text taken as characters.
pub enum CommandClientView {
    Connected,
    Disconnect,
    Info { channel: u8, name: Seq<char> },
    Battery { level: u8 },
    Invalid,
}

impl View for CommandClient {
    type V = CommandClientView;

    open spec fn view(&self) -> CommandClientView {
        match self {
            CommandClient::Connected => CommandClientView::Connected,
            CommandClient::Disconnect => CommandClientView::Disconnect,
            CommandClient::Info { channel, name } => CommandClientView::Info {
                channel: *channel,
                name: name@,
            },
            CommandClient::Battery { level } => CommandClientView::Battery { level: *level },
            CommandClient::Invalid => CommandClientView::Invalid,
        }
    }
}

/// The command that the frame at the front of `d` holds, if any. Type 0
/// is an invalid command, type 1 with a length of at least 4 a haptic's
/// channel and name, type 2 with a length of 3 the battery level.
pub open spec fn frame_command(d: Seq<u8>) -> Option<CommandClientView> {
    if d.len() < 2 {
        None
    } else if d[0] == 0 {
        Some(CommandClientView::Invalid)
    } else if d[0] == 1 && d[1] >= 4 {
        if d.len() >= 3 {
            Some(CommandClientView::Info { channel: d[2], name: decode_utf8(d.subrange(3, d[1] as int)) })
        } else {
            None
        }
    } else if d[0] == 2 && d[1] == 3 {
        if d.len() >= 3 {
            Some(CommandClientView::Battery { level: d[2] })
        } else {
            None
        }
    } else {
        None
    }
}

/// How many bytes reading the frame at the front of `d` consumes: the
/// frame's length for a haptic or battery frame, otherwise the header
/// bytes that are there.
pub open spec fn frame_len(d: Seq<u8>) -> int {
    if d.len() < 2 {
        d.len() as int
    } else if d[0] == 1 && d[1] >= 4 && d.len() >= 3 {
        d[1] as int
    } else if d[0] == 2 && d[1] == 3 && d.len() >= 3 {
        3
    } else {
        2
    }
}

/// The haptic frame at the front of `d` runs past the end of `d`, or its
/// name is not UTF-8: such a frame cannot be read.
pub open spec fn frame_malformed(d: Seq<u8>) -> bool {
    &&& d.len() >= 3
    &&& d[0] == 1
    &&& d[1] >= 4
    &&& (d.len() < d[1] || !valid_utf8(d.subrange(3, d[1] as int)))
}

/// The commands read one after the other from the front of `d`, up to the
/// first place where no command is read, and whether reading stopped at a
/// malformed frame.
pub open spec fn decode_frames(d: Seq<u8>) -> (Seq<CommandClientView>, bool)
    decreases d.len(),
{
    if frame_malformed(d) {
        (seq![], true)
    } else {
        match frame_command(d) {
            None => (seq![], false),
            Some(c) => {
                let rest = decode_frames(d.skip(frame_len(d)));
                (seq![c] + rest.0, rest.1)
            },
        }
    }
}

impl CommandClient {
    /// Reads the frame at the front of `r`.
    pub fn from_bytes(r: &mut Reader<'_>) -> (res: Option<Self>)
        requires
            !frame_malformed(old(r)@),
        ensures
            match res {
                Some(c) => frame_command(old(r)@) == Some(c@),
                None => frame_command(old(r)@) is None,
            },
            final(r)@ == old(r)@.skip(frame_len(old(r)@)),
    {
        let ghost d = r@;
        let cmd_type = r.u8()?;
        let cmd_len = r.u8()?;
        if cmd_type == 0 {
            Some(Self::Invalid)
        } else if cmd_type == 1 && cmd_len >= 4 {
            let channel = r.u8()?;
            let bytes = r.take((cmd_len - 3) as usize)?;
            assert(bytes@ == d.subrange(3, cmd_len as int));
            match crate::text::utf8_to_string(bytes) {
                Some(name) => Some(Self::Info { channel, name }),
                None => {
                    proof {
                        assert(false);
                    }
                    None
                },
            }
        } else if cmd_type == 2 && cmd_len == 3 {
            Some(Self::Battery { level: r.u8()? })
        } else {
            None
        }
    }

    /// Reads every frame of `data` in turn, as a connection does with the
    /// bytes of each read: the commands read until no command is read, and
    /// whether that happened at a malformed frame.
    pub fn decode_all(data: &[u8]) -> (r: (Vec<CommandClient>, bool))
        ensures
            r.0@.map_values(|c: CommandClient| c@) == decode_frames(data@).0,
            r.1 == decode_frames(data@).1,
    {
        let mut reader = Reader::new(data);
        let mut cmds: Vec<CommandClient> = Vec::new();
        loop
            invariant
                decode_frames(data@).0 == cmds@.map_values(|c: CommandClient| c@) + decode_frames(
                    reader@,
                ).0,
                decode_frames(data@).1 == decode_frames(reader@).1,
            decreases reader@.len(),
        {
            let ghost before = reader@;
            if reader.front_malformed() {
                assert(decode_frames(before).0 =~= seq![]);
                assert(cmds@.map_values(|c: CommandClient| c@) + seq![] =~= cmds@.map_values(
                    |c: CommandClient| c@,
                ));
                return (cmds, true);
            }
            match CommandClient::from_bytes(&mut reader) {
                Some(c) => {
                    let ghost old_cmds = cmds@;
                    cmds.push(c);
                    assert(cmds@.map_values(|c: CommandClient| c@) =~= old_cmds.map_values(
                        |c: CommandClient| c@,
                    ).push(c@));
                    assert(decode_frames(before).0 =~= seq![c@] + decode_frames(reader@).0);
                    assert(old_cmds.map_values(|c: CommandClient| c@) + (seq![c@] + decode_frames(
                        reader@,
                    ).0) =~= old_cmds.map_values(|c: CommandClient| c@).push(c@) + decode_frames(
                        reader@,
                    ).0);
                },
                None => {
                    assert(cmds@.map_values(|c: CommandClient| c@) + seq![] =~= cmds@.map_values(
                        |c: CommandClient| c@,
                    ));
                    return (cmds, false);
                },
            }
        }
    }
}


/// A well-formed battery or haptic frame.
pub open spec fn is_frame(f: Seq<u8>) -> bool {
    ||| (f.len() == 3 && f[0] == 2 && f[1] == 3)
    ||| (4 <= f.len() && f[0] == 1 && f[1] == f.len() && valid_utf8(f.subrange(3, f.len() as int)))
}

/// Frames delimit themselves: a well-formed frame followed by any bytes is
/// read as the frame's command, then as whatever the bytes hold.
pub proof fn lemma_frame_then_rest(f: Seq<u8>, rest: Seq<u8>)
    requires
        is_frame(f),
    ensures
        frame_command(f) is Some,
        decode_frames(f + rest) == (seq![frame_command(f).unwrap()] + decode_frames(rest).0, decode_frames(
            rest,
        ).1),
{
    let d = f + rest;
    assert(d[0] == f[0] && d[1] == f[1] && d[2] == f[2]);
    if f[0] == 1 {
        assert(d.subrange(3, d[1] as int) =~= f.subrange(3, f.len() as int));
    }
    assert(!frame_malformed(d));
    assert(frame_command(d) == frame_command(f));
    assert(frame_len(d) == f.len());
    assert(d.skip(f.len() as int) =~= rest);
}

/// The frame a strap sends to report battery level `level`.
pub open spec fn battery_frame(level: u8) -> Seq<u8> {
    seq![2u8, 3u8, level]
}

/// The frame a strap sends to announce a haptic on `channel` whose name
/// has the UTF-8 bytes `name`: type, total length, channel, name.
pub open spec fn info_frame(channel: u8, name: Seq<u8>) -> Seq<u8> {
    seq![1u8, (name.len() + 3) as u8, channel] + name
}

/// What a strap sends is read back: a battery frame gives its level, a
/// haptic frame (with a name of 1 to 252 UTF-8 bytes) its channel and
/// name, a frame of type 0 an invalid command over its two header bytes;
/// each is followed by whatever the next bytes hold.
pub proof fn lemma_frames_read_back(level: u8, channel: u8, name: Seq<u8>, x: u8, rest: Seq<u8>)
    requires
        1 <= name.len() <= 252,
        valid_utf8(name),
    ensures
        decode_frames(battery_frame(level) + rest) == (seq![CommandClientView::Battery { level }]
            + decode_frames(rest).0, decode_frames(rest).1),
        decode_frames(info_frame(channel, name) + rest) == (seq![CommandClientView::Info {
            channel,
            name: decode_utf8(name),
        }] + decode_frames(rest).0, decode_frames(rest).1),
        decode_frames(seq![0u8, x] + rest) == (seq![CommandClientView::Invalid] + decode_frames(
            rest,
        ).0, decode_frames(rest).1),
        decode_frames(Seq::<u8>::empty()) == (Seq::<CommandClientView>::empty(), false),
{
    let b = battery_frame(level);
    let f = info_frame(channel, name);
    assert(f.subrange(3, f.len() as int) =~= name);
    lemma_frame_then_rest(b, rest);
    lemma_frame_then_rest(f, rest);
    let z = seq![0u8, x] + rest;
    assert(z[0] == 0u8);
    assert(!frame_malformed(z));
    assert(z.skip(2) =~= rest);
    assert(frame_command(b) == Some(CommandClientView::Battery { level }));
    assert(frame_command(f) == Some(CommandClientView::Info { channel, name: decode_utf8(name) }));
}

/// A byte's two digits and a `u16`'s four digits read back as the number,
/// and each digit is an upper-case hexadecimal digit.
proof fn lemma_hex_reads_back(v: int)
    requires
        0 <= v < 65536,
    ensures
        hex_text_value(seq![hex_digit(v / 4096), hex_digit((v / 256) % 16), hex_digit((v / 16) % 16), hex_digit(v % 16)]) == v,
        v < 256 ==> hex_text_value(seq![hex_digit(v / 16), hex_digit(v % 16)]) == v,
{
    let t4 = seq![hex_digit(v / 4096), hex_digit((v / 256) % 16), hex_digit((v / 16) % 16), hex_digit(v % 16)];
    let t2 = seq![hex_digit(v / 16), hex_digit(v % 16)];
    assert(hex_value(hex_digit(v / 4096)) == v / 4096);
    assert(hex_value(hex_digit((v / 256) % 16)) == (v / 256) % 16);
    assert(hex_value(hex_digit((v / 16) % 16)) == (v / 16) % 16);
    assert(hex_value(hex_digit(v % 16)) == v % 16);
    let t1 = t4.drop_last().drop_last().drop_last();
    assert(t1 =~= seq![hex_digit(v / 4096)]);
    assert(t1.drop_last() =~= Seq::<u8>::empty());
    assert(hex_text_value(t1.drop_last()) == 0);
    assert(t1.last() == hex_digit(v / 4096));
    assert(hex_text_value(t1) == v / 4096);
    assert(hex_text_value(t4.drop_last().drop_last()) == (v / 4096) * 16 + (v / 256) % 16);
    assert(hex_text_value(t4.drop_last()) == ((v / 4096) * 16 + (v / 256) % 16) * 16 + (v / 16) % 16);
    assert(((v / 4096) * 16 + (v / 256) % 16) * 16 + (v / 16) % 16 == v / 16);
    assert((v / 16) * 16 + v % 16 == v);
    if v < 256 {
        assert(hex_value(hex_digit(v / 16)) == v / 16);
        let u1 = t2.drop_last();
        assert(u1 =~= seq![hex_digit(v / 16)]);
        assert(u1.drop_last() =~= Seq::<u8>::empty());
        assert(hex_text_value(u1.drop_last()) == 0);
        assert(hex_text_value(u1) == v / 16);
    }
}

/// The strap reads each line back as the command: its first two digits
/// are the channel, the next two the strength and the next four the
/// duration, each most significant digit first, and a line feed ends it.
pub proof fn lemma_server_line_reads_back(cmd: CommandServer)
    ensures
        match cmd {
            CommandServer::Haptic { channel, strength, duration } => {
                let l = server_line(cmd);
                &&& l.len() == 9
                &&& hex_text_value(l.subrange(0, 2)) == channel
                &&& hex_text_value(l.subrange(2, 4)) == strength
                &&& hex_text_value(l.subrange(4, 8)) == duration
                &&& l[8] == 10
            },
        },
{
    match cmd {
        CommandServer::Haptic { channel, strength, duration } => {
            let l = server_line(cmd);
            lemma_hex_reads_back(channel as int);
            lemma_hex_reads_back(strength as int);
            lemma_hex_reads_back(duration as int);
            assert(l.subrange(0, 2) =~= hex_u8(channel));
            assert(l.subrange(2, 4) =~= hex_u8(strength));
            assert(l.subrange(4, 8) =~= hex_u16(duration));
        },
    }
}

/// Every line sent to the strap is nine bytes: eight upper-case
/// hexadecimal digits and a line feed.
pub proof fn lemma_server_line_shape(cmd: CommandServer)
    ensures
        server_line(cmd).len() == 9,
        server_line(cmd)[8] == 10,
        forall|i: int|
            0 <= i < 8 ==> {
                let b = #[trigger] server_line(cmd)[i];
                (48 <= b <= 57) || (65 <= b <= 70)
            },
{
    match cmd {
        CommandServer::Haptic { channel, strength, duration } => {
            let l = server_line(cmd);
            assert(l =~= seq![
                hex_digit(channel as int / 16),
                hex_digit(channel as int % 16),
                hex_digit(strength as int / 16),
                hex_digit(strength as int % 16),
                hex_digit(duration as int / 4096),
                hex_digit((duration as int / 256) % 16),
                hex_digit((duration as int / 16) % 16),
                hex_digit(duration as int % 16),
                10u8,
            ]);
        },
    }
}

} // verus!
