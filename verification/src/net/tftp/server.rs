//! A TFTP server without its sockets: which requests are served, what is
//! agreed on, and how a transfer goes on from one event to the next, with
//! exponential-backoff retransmission (RFC 1350 section 4).
use vstd::arithmetic::power2::pow2;
use vstd::prelude::*;
use super::packet;
use super::packet::{Packet, PacketView};
use crate::net::addr::IpAddr;
use crate::net::path;
use crate::text;

verus! {

/// Default initial retransmission timeout, in milliseconds.
pub const DEFAULT_TIMEOUT: u64 = 1000;

/// Maximum number of retransmission attempts.
pub const DEFAULT_MAX_RETRIES: u32 = 5;

/// Maximum blksize the server will agree to.
pub const DEFAULT_MAX_BLKSIZE: u16 = 1468;

/// A configured TFTP server.
#[derive(Debug)]
pub struct TftpServer {
    pub bind: IpAddr,
    pub tftp_root: String,
    /// Initial retransmission timeout, in milliseconds.
    pub transfer_timeout: u64,
    pub max_retries: u32,
    pub max_blksize: u16,
}

impl TftpServer {
    /// Blocks have a size, and the longest timeout can be counted.
    pub open spec fn wf(&self) -> bool {
        &&& self.max_blksize >= 8
        &&& self.transfer_timeout * pow2((self.max_retries + 1) as nat) <= u64::MAX
    }

    /// A TFTP server with default parameters.
    pub fn new(bind: IpAddr, tftp_root: &str) -> (s: Self)
        ensures
            s.wf(),
            s.bind == bind,
            s.tftp_root@ == tftp_root@,
            s.transfer_timeout == DEFAULT_TIMEOUT,
            s.max_retries == DEFAULT_MAX_RETRIES,
            s.max_blksize == DEFAULT_MAX_BLKSIZE,
    {
        proof {
            vstd::arithmetic::power2::lemma2_to64();
            let p = pow2((DEFAULT_MAX_RETRIES + 1) as nat);
            assert(p == 64);
            assert(DEFAULT_TIMEOUT * p == 64000) by (nonlinear_arith)
                requires
                    p == 64,
            ;
        }
        TftpServer {
            bind,
            tftp_root: String::from_str(tftp_root),
            transfer_timeout: DEFAULT_TIMEOUT,
            max_retries: DEFAULT_MAX_RETRIES,
            max_blksize: DEFAULT_MAX_BLKSIZE,
        }
    }
}

/// What the datagram that opens a conversation asks the server to do.
#[derive(Debug)]
pub enum Opening {
    /// Nothing.
    Ignore,
    /// Answer with this ERROR packet.
    Refuse(Vec<u8>),
    /// Look the file up below the root and transfer it.
    Read { filename: String, options: Vec<(String, String)> },
}

/// What an `Opening` says.
pub enum OpeningView {
    Ignore,
    Refuse(Seq<u8>),
    Read { filename: Seq<char>, options: Seq<(Seq<char>, Seq<char>)> },
}

impl View for Opening {
    type V = OpeningView;

    open spec fn view(&self) -> OpeningView {
        match self {
            Opening::Ignore => OpeningView::Ignore,
            Opening::Refuse(p) => OpeningView::Refuse(p@),
            Opening::Read { filename, options } => OpeningView::Read {
                filename: filename@,
                options: packet::options_view(options@),
            },
        }
    }
}

/// What is done about a datagram that opens a conversation: a read request is
/// served if its path stays below the root, writing is denied, and everything
/// else is ignored.
pub open spec fn opening(datagram: Seq<u8>) -> OpeningView {
    match packet::packet_in(datagram) {
        Ok(PacketView::Rrq { filename, mode, options }) => if path::is_relative(
            vstd::utf8::encode_utf8(filename),
        ) {
            OpeningView::Read { filename, options }
        } else {
            OpeningView::Refuse(
                packet::error_bytes(packet::ERR_ACCESS_VIOLATION, "Invalid path"@),
            )
        },
        Ok(PacketView::Wrq { filename, mode }) => OpeningView::Refuse(
            packet::error_bytes(packet::ERR_ACCESS_VIOLATION, "Write access denied"@),
        ),
        _ => OpeningView::Ignore,
    }
}

/// How a transfer of `data` begins: by an OACK packet where the client asked for
/// options, and else by the first block.
pub open spec fn begins(
    cfg: TftpServer,
    data: Seq<u8>,
    options: Seq<(Seq<char>, Seq<char>)>,
    job: Job,
    stage: StageView,
    step: StepView,
) -> bool {
    &&& job == (Job {
        data,
        block_size: blksize_of(options, cfg.max_blksize),
        first_timeout: cfg.transfer_timeout as int,
        max_retries: cfg.max_retries as int,
    })
    &&& options.len() == 0 ==> (stage, step) == job.send(1, 0)
    &&& options.len() > 0 ==> (stage, step) == (
        StageView::Offered,
        StepView::Send {
            packet: packet::oack_bytes(agreed(options, job.block_size, data.len())),
            wait: 2 * cfg.transfer_timeout,
        },
    )
}

/// Decide on the datagram that opens a conversation.
pub fn handle_request(datagram: &[u8]) -> (o: Opening)
    ensures
        o@ == opening(datagram@),
{
    match packet::parse(datagram) {
        Ok(Packet::Rrq { filename, mode: _, options }) => if packet::is_safe_path(
            filename.as_str(),
        ) {
            Opening::Read { filename, options }
        } else {
            Opening::Refuse(packet::encode_error(packet::ERR_ACCESS_VIOLATION, "Invalid path"))
        },
        // The server is read-only.
        Ok(Packet::Wrq { .. }) => Opening::Refuse(
            packet::encode_error(packet::ERR_ACCESS_VIOLATION, "Write access denied"),
        ),
        // ACK or ERROR outside a transfer, or malformed
        _ => Opening::Ignore,
    }
}

/// Why a requested file cannot be sent.
#[derive(Debug, Clone, Copy, PartialEq, Eq, Structural)]
pub enum Lookup {
    /// Its path does not resolve.
    Missing,
    /// The root does not resolve.
    NoRoot,
    /// Its path resolves to a place outside the root.
    Outside,
    /// It cannot be read.
    Unreadable,
}

/// The error that answers a failed lookup.
pub open spec fn lookup_answer(l: Lookup) -> (u16, Seq<char>) {
    match l {
        Lookup::Missing => (packet::ERR_FILE_NOT_FOUND, "File not found"@),
        Lookup::NoRoot => (packet::ERR_UNDEFINED, "Server error"@),
        Lookup::Outside => (packet::ERR_ACCESS_VIOLATION, "Path traversal denied"@),
        Lookup::Unreadable => (packet::ERR_FILE_NOT_FOUND, "File not found"@),
    }
}

/// The ERROR packet that answers a failed lookup.
pub fn lookup_error(l: Lookup) -> (p: Vec<u8>)
    ensures
        p@ == packet::error_bytes(lookup_answer(l).0, lookup_answer(l).1),
{
    match l {
        Lookup::Missing => packet::encode_error(packet::ERR_FILE_NOT_FOUND, "File not found"),
        Lookup::NoRoot => packet::encode_error(packet::ERR_UNDEFINED, "Server error"),
        Lookup::Outside => packet::encode_error(
            packet::ERR_ACCESS_VIOLATION,
            "Path traversal denied",
        ),
        Lookup::Unreadable => packet::encode_error(packet::ERR_FILE_NOT_FOUND, "File not found"),
    }
}

/// The block size that an option asks for, if it is one that can be agreed on.
pub open spec fn asked_blksize(option: (Seq<char>, Seq<char>)) -> Option<int> {
    if option.0 == "blksize"@ {
        match text::parse_number(option.1, u16::MAX as int) {
            Some(v) => if v >= 8 {
                Some(v)
            } else {
                None
            },
            None => None,
        }
    } else {
        None
    }
}

/// The block size of a transfer: the first that is asked for, but at most
/// `max`; 512 where none is.
pub open spec fn blksize_of(options: Seq<(Seq<char>, Seq<char>)>, max: u16) -> int
    decreases options.len(),
{
    if options.len() == 0 {
        512
    } else {
        match asked_blksize(options[0]) {
            Some(v) => if v < max {
                v
            } else {
                max as int
            },
            None => blksize_of(options.drop_first(), max),
        }
    }
}

/// Negotiate the block size: the smaller of the client's request and the
/// server's maximum.
pub fn negotiate_blksize(options: &[(String, String)], max_blksize: u16) -> (n: u16)
    ensures
        n == blksize_of(packet::options_view(options@), max_blksize),
{
    let ghost view = packet::options_view(options@);
    let mut i: usize = 0;
    assert(view.skip(0) =~= view);
    while i < options.len()
        invariant
            i <= options@.len(),
            view == packet::options_view(options@),
            blksize_of(view, max_blksize) == blksize_of(view.skip(i as int), max_blksize),
        decreases options@.len() - i,
    {
        proof {
            assert(view[i as int] == (options@[i as int].0@, options@[i as int].1@));
            assert(view.skip(i as int).drop_first() =~= view.skip(i + 1));
        }
        if text::same_text(options[i].0.as_str(), "blksize") {
            if let Some(v) = text::parse_up_to(options[i].1.as_str(), u16::MAX as u64) {
                if v >= 8 {
                    return if v < max_blksize as u64 {
                        v as u16
                    } else {
                        max_blksize
                    };
                }
            }
        }
        i += 1;
    }
    512  // default
}

/// An option asks for the size of the file.
pub open spec fn asks_size(options: Seq<(Seq<char>, Seq<char>)>) -> bool {
    exists|i: int| 0 <= i < options.len() && #[trigger] options[i] == ("tsize"@, "0"@)
}

/// The options that the server agrees to.
pub open spec fn agreed(
    options: Seq<(Seq<char>, Seq<char>)>,
    blksize: int,
    size: nat,
) -> Seq<(Seq<char>, Seq<char>)> {
    seq![("blksize"@, text::decimal(blksize as nat))] + (if asks_size(options) {
        seq![("tsize"@, text::decimal(size))]
    } else {
        Seq::empty()
    })
}

/// Whether an option asks for the size of the file.
fn wants_size(options: &[(String, String)]) -> (r: bool)
    ensures
        r == asks_size(packet::options_view(options@)),
{
    let ghost view = packet::options_view(options@);
    let mut i: usize = 0;
    while i < options.len()
        invariant
            i <= options@.len(),
            view == packet::options_view(options@),
            forall|j: int| 0 <= j < i ==> #[trigger] view[j] != ("tsize"@, "0"@),
        decreases options@.len() - i,
    {
        assert(view[i as int] == (options@[i as int].0@, options@[i as int].1@));
        if text::same_text(options[i].0.as_str(), "tsize") && text::same_text(
            options[i].1.as_str(),
            "0",
        ) {
            return true;
        }
        i += 1;
    }
    false
}

/// How far a transfer is.
#[derive(Debug, Clone, Copy, PartialEq, Eq, Structural)]
pub enum Stage {
    /// The options were sent and are to be acknowledged as block 0.
    Offered,
    /// `block` (1-based) was sent, `retries` times again, and is to be
    /// acknowledged within `timeout` milliseconds.
    Sending { block: u16, retries: u32, timeout: u64 },
    Over,
}

/// What a transfer waits for.
#[derive(Debug)]
pub enum Event {
    Datagram(Vec<u8>),
    RecvError,
    Timeout,
}

/// What a transfer does next.
#[derive(Debug)]
pub enum Step {
    /// Send `packet` and wait for an event, at most `wait` milliseconds.
    Send { packet: Vec<u8>, wait: u64 },
    /// Send this ERROR packet and stop.
    Abort(Vec<u8>),
    Stop,
}

/// What a `Stage` says; the timeout follows from the retries.
pub enum StageView {
    Offered,
    Sending { block: int, retries: int },
    Over,
}

/// What a `Step` says.
pub enum StepView {
    Send { packet: Seq<u8>, wait: int },
    Abort(Seq<u8>),
    Stop,
}

impl View for Stage {
    type V = StageView;

    open spec fn view(&self) -> StageView {
        match self {
            Stage::Offered => StageView::Offered,
            Stage::Sending { block, retries, .. } => StageView::Sending {
                block: *block as int,
                retries: *retries as int,
            },
            Stage::Over => StageView::Over,
        }
    }
}

impl View for Step {
    type V = StepView;

    open spec fn view(&self) -> StepView {
        match self {
            Step::Send { packet, wait } => StepView::Send { packet: packet@, wait: *wait as int },
            Step::Abort(packet) => StepView::Abort(packet@),
            Step::Stop => StepView::Stop,
        }
    }
}

/// The block that an event acknowledges.
pub open spec fn acked(e: Event) -> Option<int> {
    match e {
        Event::Datagram(d) => match packet::packet_in(d@) {
            Ok(PacketView::Ack { block }) => Some(block as int),
            _ => None,
        },
        _ => None,
    }
}

/// A file on its way to a client.
pub struct Transfer {
    pub data: Vec<u8>,
    pub block_size: u16,
    /// Initial retransmission timeout, in milliseconds.
    pub first_timeout: u64,
    pub max_retries: u32,
    pub stage: Stage,
}

/// What a transfer sends: the file, in blocks of `block_size` bytes, with
/// timeouts from `first_timeout` on.
pub struct Job {
    pub data: Seq<u8>,
    pub block_size: int,
    pub first_timeout: int,
    pub max_retries: int,
}

impl Job {
    /// The bytes of block `block` (1-based).
    pub open spec fn chunk(self, block: int) -> Seq<u8> {
        let end = block * self.block_size;
        self.data.subrange(
            (block - 1) * self.block_size,
            if end < self.data.len() {
                end
            } else {
                self.data.len() as int
            },
        )
    }

    /// Block `block` is the last one: it is not full.
    pub open spec fn is_last(self, block: int) -> bool {
        block * self.block_size > self.data.len()
    }

    /// The number of the last block.
    pub open spec fn last(self) -> int {
        self.data.len() as int / self.block_size + 1
    }

    /// The timeout after `retries` retries: it doubles with each.
    pub open spec fn timeout(self, retries: int) -> int {
        self.first_timeout * pow2(retries as nat) as int
    }

    /// Sending block `block`, for the `retries`th time again.
    pub open spec fn send(self, block: int, retries: int) -> (StageView, StepView) {
        (
            StageView::Sending { block, retries },
            StepView::Send {
                packet: packet::data_bytes(block as u16, self.chunk(block)),
                wait: self.timeout(retries),
            },
        )
    }

    /// How a transfer goes on when block `ack` is acknowledged, or else when
    /// the wait ends without an acknowledgement, because of its timeout or of
    /// something else.
    pub open spec fn reaction(self, stage: StageView, ack: Option<int>, timed_out: bool) -> (
        StageView,
        StepView,
    ) {
        match stage {
            StageView::Offered => if ack == Some(0int) {
                self.send(1, 0)
            } else {
                (StageView::Over, StepView::Stop)
            },
            StageView::Sending { block, retries } => if ack == Some(block) {
                if self.is_last(block) {
                    (StageView::Over, StepView::Stop)
                } else {
                    self.send(block + 1, 0)
                }
            } else if retries < self.max_retries {
                self.send(block, retries + 1)
            } else if timed_out && !self.is_last(block) {
                (
                    StageView::Over,
                    StepView::Abort(
                        packet::error_bytes(packet::ERR_UNDEFINED, "Transfer timed out"@),
                    ),
                )
            } else {
                (StageView::Over, StepView::Stop)
            },
            StageView::Over => (StageView::Over, StepView::Stop),
        }
    }

    /// Block numbers suffice for the file, and timeouts can be counted.
    pub open spec fn wf(self) -> bool {
        &&& 1 <= self.block_size <= u16::MAX
        &&& self.data.len() < 65535 * self.block_size
        &&& 0 <= self.first_timeout
        &&& 0 <= self.max_retries <= u32::MAX
        &&& self.first_timeout * pow2((self.max_retries + 1) as nat) as int <= u64::MAX
    }

    /// `stage` is one that the transfer can be in.
    pub open spec fn reachable(self, stage: StageView) -> bool {
        stage matches StageView::Sending { block, retries } ==> {
            &&& 1 <= block <= 65535
            &&& (block - 1) * self.block_size <= self.data.len()
            &&& 0 <= retries <= self.max_retries
        }
    }

    pub(crate) proof fn timeout_counts(self, retries: int)
        requires
            self.wf(),
            0 <= retries <= self.max_retries,
        ensures
            0 <= self.timeout(retries) <= u64::MAX,
            self.timeout(retries + 1) == 2 * self.timeout(retries),
            self.timeout(retries + 1) <= u64::MAX,
    {
        let k = retries as nat;
        let top = (self.max_retries + 1) as nat;
        vstd::arithmetic::power2::lemma_pow2_unfold(k + 1);
        vstd::arithmetic::power2::lemma_pow2_pos(k);
        vstd::arithmetic::power2::lemma_pow2_pos(k + 1);
        if k + 1 < top {
            vstd::arithmetic::power2::lemma_pow2_strictly_increases(k + 1, top);
        }
        let t = self.first_timeout;
        let p = pow2(k) as int;
        let q = pow2(k + 1) as int;
        let r = pow2(top) as int;
        assert(t * q <= t * r) by (nonlinear_arith)
            requires
                q <= r,
                0 <= t,
        ;
        assert(t * q == 2 * (t * p)) by (nonlinear_arith)
            requires
                q == 2 * p,
        ;
        assert(0 <= t * p) by (nonlinear_arith)
            requires
                0 <= t,
                0 <= p,
        ;
    }

    pub(crate) proof fn first_timeout_is_first(self)
        ensures
            self.timeout(0) == self.first_timeout,
    {
        vstd::arithmetic::power2::lemma2_to64();
        let p = pow2(0) as int;
        assert(self.first_timeout * p == self.first_timeout) by (nonlinear_arith)
            requires
                p == 1,
        ;
    }

    pub(crate) proof fn next_block(self, block: int)
        requires
            self.wf(),
            1 <= block <= 65535,
            !self.is_last(block),
        ensures
            block < 65535,
    {
        if block >= 65535 {
            assert(block * self.block_size >= 65535 * self.block_size) by (nonlinear_arith)
                requires
                    block >= 65535,
                    self.block_size >= 1,
            ;
        }
    }

    /// What stays so: a transfer never leaves the stages it can be in.
    pub proof fn reaction_keeps_reachable(
        self,
        stage: StageView,
        ack: Option<int>,
        timed_out: bool,
    )
        requires
            self.wf(),
            self.reachable(stage),
        ensures
            self.reachable(self.reaction(stage, ack, timed_out).0),
    {
        if let StageView::Sending { block, retries } = stage {
            if !self.is_last(block) {
                self.next_block(block);
            }
        }
    }
}

impl Transfer {
    /// What is sent.
    pub open spec fn job(&self) -> Job {
        Job {
            data: self.data@,
            block_size: self.block_size as int,
            first_timeout: self.first_timeout as int,
            max_retries: self.max_retries as int,
        }
    }

    /// The transfer can be carried out, is in a stage it can be in, and waits
    /// as long as its retries ask for.
    pub open spec fn wf(&self) -> bool {
        &&& self.job().wf()
        &&& self.job().reachable(self.stage@)
        &&& self.stage matches Stage::Sending { retries, timeout, .. } ==> timeout
            == self.job().timeout(retries as int)
    }

    /// Begin to send `data`: by an OACK packet where the client asked for
    /// options, and else by the first block.
    pub fn start(cfg: &TftpServer, data: Vec<u8>, options: &[(String, String)]) -> (r: (
        Transfer,
        Step,
    ))
        requires
            cfg.wf(),
            data@.len() < 65535 * blksize_of(packet::options_view(options@), cfg.max_blksize),
        ensures
            r.0.wf(),
            begins(
                *cfg,
                data@,
                packet::options_view(options@),
                r.0.job(),
                r.0.stage@,
                r.1@,
            ),
    {
        let block_size: u16 = negotiate_blksize(options, cfg.max_blksize);
        let ghost view = packet::options_view(options@);
        let mut t = Transfer {
            data,
            block_size,
            first_timeout: cfg.transfer_timeout,
            max_retries: cfg.max_retries,
            stage: Stage::Offered,
        };
        proof {
            blksize_is_sound(view, cfg.max_blksize);
            t.job().timeout_counts(0);
            t.job().first_timeout_is_first();
        }
        if options.len() > 0 {
            let mut oack: Vec<(String, String)> = Vec::new();
            oack.push((String::from_str("blksize"), text::to_decimal(block_size as u64)));
            // tsize: the file's size if requested (value "0" means "send me the size")
            if wants_size(options) {
                oack.push((String::from_str("tsize"), text::to_decimal(t.data.len() as u64)));
            }
            assert(packet::options_view(oack@) =~= agreed(view, block_size as int, data@.len()));
            let packet = packet::encode_oack(oack.as_slice());
            let wait: u64 = cfg.transfer_timeout * 2;
            (t, Step::Send { packet, wait })
        } else {
            let step = t.send(1, 0, cfg.transfer_timeout);
            (t, step)
        }
    }

    /// Send `block`, for the `retries`th time again.
    fn send(&mut self, block: u16, retries: u32, timeout: u64) -> (step: Step)
        requires
            old(self).job().wf(),
            old(self).job().reachable(
                StageView::Sending { block: block as int, retries: retries as int },
            ),
            timeout == old(self).job().timeout(retries as int),
        ensures
            final(self).wf(),
            final(self).job() == old(self).job(),
            (final(self).stage@, step@) == old(self).job().send(block as int, retries as int),
    {
        let bs: usize = self.block_size as usize;
        proof {
            let b = block as int;
            assert((b - 1) * bs <= 65534 * 65535) by (nonlinear_arith)
                requires
                    1 <= b <= 65535,
                    0 <= bs <= 65535,
            ;
            assert((b - 1) * bs + bs == b * bs) by (nonlinear_arith);
        }
        let start: usize = (block as usize - 1) * bs;
        let end: usize = if self.data.len() - start < bs {
            self.data.len()
        } else {
            start + bs
        };
        let packet = packet::encode_data(
            block,
            vstd::slice::slice_subrange(self.data.as_slice(), start, end),
        );
        self.stage = Stage::Sending { block, retries, timeout };
        Step::Send { packet, wait: timeout }
    }

    /// Whether `block` is the last one.
    fn sends_last(&self, block: u16) -> (r: bool)
        requires
            self.job().wf(),
            1 <= block,
        ensures
            r == self.job().is_last(block as int),
    {
        proof {
            let b = block as int;
            let bs = self.block_size as int;
            assert(0 <= b * bs <= 65535 * 65535) by (nonlinear_arith)
                requires
                    0 <= b <= 65535,
                    0 <= bs <= 65535,
            ;
        }
        block as usize * self.block_size as usize > self.data.len()
    }

    /// Go on after an event.
    pub fn react(&mut self, event: &Event) -> (step: Step)
        requires
            old(self).wf(),
        ensures
            final(self).wf(),
            final(self).job() == old(self).job(),
            (final(self).stage@, step@) == old(self).job().reaction(
                old(self).stage@,
                acked(*event),
                *event is Timeout,
            ),
    {
        let ack: Option<u16> = match event {
            Event::Datagram(d) => match packet::parse(d.as_slice()) {
                Ok(Packet::Ack { block }) => Some(block),
                _ => None,
            },
            _ => None,
        };
        let timed_out = match event {
            Event::Timeout => true,
            _ => false,
        };
        proof {
            self.job().first_timeout_is_first();
        }
        match self.stage {
            Stage::Offered => {
                match ack {
                    Some(0) => {
                        let timeout: u64 = self.first_timeout;
                        self.send(1, 0, timeout)
                    },
                    _ => {
                        // The client did not accept the options: give up.
                        self.stage = Stage::Over;
                        Step::Stop
                    },
                }
            },
            Stage::Sending { block, retries, timeout } => {
                let last = self.sends_last(block);
                let right = match ack {
                    Some(b) => b == block,
                    None => false,
                };
                if right {
                    if last {
                        self.stage = Stage::Over;
                        Step::Stop
                    } else {
                        proof {
                            self.job().next_block(block as int);
                        }
                        // Advance, with the timeout reset.
                        let first: u64 = self.first_timeout;
                        self.send(block + 1, 0, first)
                    }
                } else if retries < self.max_retries {
                    // Lost, late or wrong acknowledgement: send the same block again.
                    proof {
                        self.job().timeout_counts(retries as int);
                    }
                    self.send(block, retries + 1, timeout * 2)
                } else {
                    self.stage = Stage::Over;
                    if timed_out && !last {
                        Step::Abort(
                            packet::encode_error(packet::ERR_UNDEFINED, "Transfer timed out"),
                        )
                    } else {
                        Step::Stop
                    }
                }
            },
            Stage::Over => Step::Stop,
        }
    }
}

/// A file is looked up only under a name that stays below the root: neither
/// absolute, nor with a drive letter, nor with a `.` or `..` component.
pub proof fn served_names_stay_below(datagram: Seq<u8>)
    ensures
        opening(datagram) matches OpeningView::Read { filename, options } ==> path::is_relative(
            vstd::utf8::encode_utf8(filename),
        ),
{
}

/// What is agreed on is a size of at least 8 bytes and at most the maximum, or
/// the default.
pub proof fn blksize_is_sound(options: Seq<(Seq<char>, Seq<char>)>, max: u16)
    requires
        max >= 8,
    ensures
        8 <= blksize_of(options, max) <= max || blksize_of(options, max) == 512,
    decreases options.len(),
{
    if options.len() > 0 && asked_blksize(options[0]) is None {
        blksize_is_sound(options.drop_first(), max);
    }
}

/// The first `k` blocks, one after the other.
pub open spec fn joined(job: Job, k: int) -> Seq<u8>
    decreases k,
{
    if k <= 0 {
        Seq::empty()
    } else {
        joined(job, k - 1) + job.chunk(k)
    }
}

proof fn joined_is_prefix(job: Job, k: int)
    requires
        job.wf(),
        0 <= k < job.last(),
    ensures
        k * job.block_size <= job.data.len(),
        joined(job, k) == job.data.take(k * job.block_size),
    decreases k,
{
    let bs = job.block_size;
    let n = job.data.len() as int;
    assert(k * bs <= n) by (nonlinear_arith)
        requires
            k <= n / bs,
            bs >= 1,
            n >= 0,
    ;
    if k > 0 {
        joined_is_prefix(job, k - 1);
        assert((k - 1) * bs + bs == k * bs) by (nonlinear_arith);
        assert(joined(job, k) =~= job.data.take(k * bs));
    } else {
        assert(0 * bs == 0) by (nonlinear_arith);
        assert(joined(job, 0) =~= job.data.take(0));
    }
}

/// The blocks of a transfer make up the file: all but the last are full, the
/// last is not, and together they are the data, in order.
pub proof fn blocks_make_the_file(job: Job)
    requires
        job.wf(),
    ensures
        joined(job, job.last()) == job.data,
        forall|b: int| 1 <= b < job.last() ==> #[trigger] job.chunk(b).len() == job.block_size,
        job.chunk(job.last()).len() < job.block_size,
        forall|b: int| 1 <= b <= job.last() ==> #[trigger] job.is_last(b) == (b == job.last()),
        1 <= job.last() <= 65535,
{
    let bs = job.block_size;
    let n = job.data.len() as int;
    let last = job.last();
    joined_is_prefix(job, last - 1);
    assert(last * bs == (last - 1) * bs + bs) by (nonlinear_arith);
    assert(n < last * bs) by (nonlinear_arith)
        requires
            last == n / bs + 1,
            bs >= 1,
            n >= 0,
    ;
    assert(last <= 65535) by (nonlinear_arith)
        requires
            last == n / bs + 1,
            n < 65535 * bs,
            bs >= 1,
            n >= 0,
    ;
    assert(1 <= last) by (nonlinear_arith)
        requires
            last == n / bs + 1,
            bs >= 1,
            n >= 0,
    ;
    assert(joined(job, last) =~= job.data);
    assert forall|b: int| 1 <= b < last implies #[trigger] job.chunk(b).len() == bs by {
        joined_is_prefix(job, b);
        assert((b - 1) * bs + bs == b * bs) by (nonlinear_arith);
        assert((b - 1) * bs >= 0) by (nonlinear_arith)
            requires
                b >= 1,
                bs >= 1,
        ;
    }
    assert forall|b: int| 1 <= b <= last implies #[trigger] job.is_last(b) == (b == last) by {
        if b < last {
            joined_is_prefix(job, b);
        }
    }
}

/// The stage after `k` acknowledgements, each of the block just sent.
pub open spec fn after_acks(job: Job, k: int) -> (StageView, StepView)
    decreases k,
{
    if k <= 0 {
        job.send(1, 0)
    } else {
        let before = after_acks(job, k - 1).0;
        match before {
            StageView::Sending { block, retries } => job.reaction(before, Some(block), false),
            _ => (before, StepView::Stop),
        }
    }
}

/// A client that acknowledges every block is sent each block of the file once,
/// in order, and the transfer stops after the last.
pub proof fn acks_drive_the_transfer(job: Job, k: int)
    requires
        job.wf(),
        0 <= k <= job.last(),
    ensures
        k < job.last() ==> after_acks(job, k) == job.send(k + 1, 0),
        k == job.last() ==> after_acks(job, k) == (StageView::Over, StepView::Stop),
    decreases k,
{
    blocks_make_the_file(job);
    if k > 0 {
        acks_drive_the_transfer(job, k - 1);
        assert(job.is_last(k) == (k == job.last()));
    }
}

/// Only the acknowledgement of the block just sent moves a transfer on: after
/// anything else, a duplicate acknowledgement of the block before among it,
/// the same block is sent again, at most `max_retries` times.
pub proof fn only_the_right_ack_advances(
    job: Job,
    block: int,
    retries: int,
    ack: Option<int>,
    timed_out: bool,
)
    requires
        ack != Some(block),
    ensures
        ({
            let r = job.reaction(StageView::Sending { block, retries }, ack, timed_out);
            &&& retries < job.max_retries ==> r == job.send(block, retries + 1)
            &&& retries >= job.max_retries ==> r.0 == StageView::Over
        }),
{
}

} // verus!
