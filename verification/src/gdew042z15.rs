//! Non-blocking protocol driver for the GDEW042Z15 e-paper panel.
//!
//! The driver sequences reset and power-up as a strictly
//! forward-progressing state machine driven by repeated polling, and
//! frames the byte protocol: a command byte goes out with the
//! data/command line low, a data byte with it high, and the chip-select
//! line is asserted for exactly one full-duplex byte exchange at a time.
//! The words put on the bus are tracked in a ghost log, which the
//! contracts below speak of.

use vstd::prelude::*;

use crate::hal::{Countdown, DigitalInput, DigitalOutput, DuplexBus};
use crate::{Display, Hertz, NotReady};

verus! {

/// The panel's fixed pixel width.
pub const PANEL_WIDTH: u32 = 400;

/// The panel's fixed pixel height.
pub const PANEL_HEIGHT: u32 = 300;

// The panel's command opcodes. Only a few are exercised by this driver;
// the rest are reserved by the panel's protocol.
pub const CMD_PANEL_SETTING: u8 = 0x00;
pub const CMD_POWER_SETTING: u8 = 0x01;
pub const CMD_POWER_OFF: u8 = 0x02;
pub const CMD_POWER_OFF_SEQUENCE_SETTING: u8 = 0x03;
pub const CMD_POWER_ON: u8 = 0x04;
pub const CMD_POWER_ON_MEASURE: u8 = 0x05;
pub const CMD_BOOSTER_SOFT_START: u8 = 0x06;
pub const CMD_DEEP_SLEEP: u8 = 0x07;
pub const CMD_DATA_START_TRANSMISSION_1: u8 = 0x10;
pub const CMD_DATA_STOP: u8 = 0x11;
pub const CMD_DISPLAY_REFRESH: u8 = 0x12;
pub const CMD_DATA_START_TRANSMISSION_2: u8 = 0x13;
pub const CMD_LUT_FOR_VCOM: u8 = 0x20;
pub const CMD_LUT_WHITE_TO_WHITE: u8 = 0x21;
pub const CMD_LUT_BLACK_TO_WHITE: u8 = 0x22;
pub const CMD_LUT_WHITE_TO_BLACK: u8 = 0x23;
pub const CMD_LUT_BLACK_TO_BLACK: u8 = 0x24;
pub const CMD_PLL_CONTROL: u8 = 0x30;
pub const CMD_TEMPERATURE_SENSOR: u8 = 0x40;
pub const CMD_TEMPERATURE_SENSOR_SELECTION: u8 = 0x41;
pub const CMD_TEMPERATURE_SENSOR_WRITE: u8 = 0x42;
pub const CMD_TEMPERATURE_SENSOR_READ: u8 = 0x43;
pub const CMD_VCOM_AND_DATA_INTERVAL_SETTING: u8 = 0x50;
pub const CMD_LOW_POWER_DETECTION: u8 = 0x51;
pub const CMD_TCON_SETTING: u8 = 0x60;
pub const CMD_RESOLUTION_SETTING: u8 = 0x61;
pub const CMD_GSST_SETTING: u8 = 0x65;
pub const CMD_GET_STATUS: u8 = 0x71;
pub const CMD_AUTO_MEASUREMENT_VCOM: u8 = 0x80;
pub const CMD_READ_VCOM_VALUE: u8 = 0x81;
pub const CMD_VCM_DC_SETTING: u8 = 0x82;
pub const CMD_PARTIAL_WINDOW: u8 = 0x90;
pub const CMD_PARTIAL_IN: u8 = 0x91;
pub const CMD_PARTIAL_OUT: u8 = 0x92;
pub const CMD_PROGRAM_MODE: u8 = 0xA0;
pub const CMD_ACTIVE_PROGRAMMING: u8 = 0xA1;
pub const CMD_READ_OTP: u8 = 0xA2;
pub const CMD_POWER_SAVING: u8 = 0xE3;

/// One word put on the panel bus: an opcode sent with the data/command
/// line low, or a parameter or pixel byte sent with it high.
pub enum BusWord {
    Command(u8),
    Data(u8),
}

/// The data payloads of a bus log, in order.
pub open spec fn data_payloads(s: Seq<BusWord>) -> Seq<u8>
    decreases s.len(),
{
    if s.len() == 0 {
        Seq::empty()
    } else {
        data_payloads(s.drop_last()) + match s.last() {
            BusWord::Data(b) => seq![b],
            BusWord::Command(_) => Seq::empty(),
        }
    }
}

pub proof fn lemma_data_payloads_concat(a: Seq<BusWord>, b: Seq<BusWord>)
    ensures
        data_payloads(a + b) == data_payloads(a) + data_payloads(b),
    decreases b.len(),
{
    if b.len() == 0 {
        assert(a + b =~= a);
        assert(data_payloads(a) + data_payloads(b) =~= data_payloads(a));
    } else {
        lemma_data_payloads_concat(a, b.drop_last());
        assert((a + b).drop_last() =~= a + b.drop_last());
        assert((a + b).last() == b.last());
        assert(data_payloads(a) + (data_payloads(b.drop_last()) + match b.last() {
            BusWord::Data(byte) => seq![byte],
            BusWord::Command(_) => Seq::<u8>::empty(),
        }) =~= (data_payloads(a) + data_payloads(b.drop_last())) + match b.last() {
            BusWord::Data(byte) => seq![byte],
            BusWord::Command(_) => Seq::<u8>::empty(),
        });
    }
}

pub proof fn lemma_data_payloads_data_row(row: Seq<u8>, n: int)
    requires
        0 <= n <= row.len(),
    ensures
        data_payloads(Seq::new(n as nat, |j: int| BusWord::Data(row[j]))) == row.take(n),
    decreases n,
{
    let s = Seq::new(n as nat, |j: int| BusWord::Data(row[j]));
    if n == 0 {
        assert(row.take(0) =~= Seq::<u8>::empty());
    } else {
        lemma_data_payloads_data_row(row, n - 1);
        assert(s.drop_last() =~= Seq::new((n - 1) as nat, |j: int| BusWord::Data(row[j])));
        assert(s.last() == BusWord::Data(row[n - 1]));
        assert(data_payloads(s) =~= row.take(n));
    }
}

pub proof fn lemma_data_payloads_push(s: Seq<BusWord>, w: BusWord)
    ensures
        data_payloads(s.push(w)) == data_payloads(s) + match w {
            BusWord::Data(b) => seq![b],
            BusWord::Command(_) => Seq::<u8>::empty(),
        },
{
    assert(s.push(w).drop_last() =~= s);
    assert(s.push(w).last() == w);
}

/// The words emitted when the init state machine leaves stage `s`.
pub open spec fn transition_words(s: int) -> Seq<BusWord> {
    if s == 2 {
        seq![
            BusWord::Command(CMD_BOOSTER_SOFT_START),
            BusWord::Data(0x17),
            BusWord::Data(0x17),
            BusWord::Data(0x17),
            BusWord::Command(CMD_POWER_ON),
        ]
    } else if s == 3 {
        seq![BusWord::Command(CMD_PANEL_SETTING), BusWord::Data(0x0f)]
    } else {
        Seq::empty()
    }
}

/// The words emitted while the init state machine advances from stage
/// `from` to stage `to`.
pub open spec fn init_words(from: int, to: int) -> Seq<BusWord>
    decreases to - from,
{
    if from >= to {
        Seq::empty()
    } else {
        transition_words(from) + init_words(from + 1, to)
    }
}

pub proof fn lemma_init_words_snoc(from: int, to: int)
    requires
        from <= to,
    ensures
        init_words(from, to + 1) == init_words(from, to) + transition_words(to),
    decreases to - from,
{
    if from == to {
        assert(init_words(from + 1, to + 1) =~= Seq::<BusWord>::empty());
        assert(init_words(from, to) =~= Seq::<BusWord>::empty());
        assert(init_words(from, to + 1) == transition_words(from) + init_words(from + 1, to + 1));
        assert(transition_words(from) + Seq::<BusWord>::empty() =~= transition_words(from));
        assert(init_words(from, to) + transition_words(to) =~= transition_words(to));
    } else {
        lemma_init_words_snoc(from + 1, to);
        assert(init_words(from, to + 1) =~= transition_words(from) + init_words(from + 1, to + 1));
        assert(transition_words(from) + (init_words(from + 1, to) + transition_words(to)) =~= (
        transition_words(from) + init_words(from + 1, to)) + transition_words(to));
    }
}

/// The words `end_frame` puts on the bus: the second ("red") plane
/// command, one all-foreground byte per 8 pixels of the whole panel, and
/// the refresh command.
pub open spec fn end_frame_words() -> Seq<BusWord> {
    seq![BusWord::Command(CMD_DATA_START_TRANSMISSION_2)] + Seq::new(
        (PANEL_WIDTH * PANEL_HEIGHT / 8) as nat,
        |i: int| BusWord::Data(0xff),
    ) + seq![BusWord::Command(CMD_DISPLAY_REFRESH)]
}

/// The complete power-up script, from uninitialized to initialized:
/// booster soft start with three parameter bytes, power on, then panel
/// setting with one parameter byte.
pub proof fn lemma_full_init_words()
    ensures
        init_words(0, 4) == seq![
            BusWord::Command(CMD_BOOSTER_SOFT_START),
            BusWord::Data(0x17),
            BusWord::Data(0x17),
            BusWord::Data(0x17),
            BusWord::Command(CMD_POWER_ON),
            BusWord::Command(CMD_PANEL_SETTING),
            BusWord::Data(0x0f),
        ],
{
    assert(init_words(4, 4) =~= Seq::<BusWord>::empty());
    assert(init_words(3, 4) =~= transition_words(3) + init_words(4, 4));
    assert(init_words(2, 4) =~= transition_words(2) + init_words(3, 4));
    assert(init_words(1, 4) =~= transition_words(1) + init_words(2, 4));
    assert(init_words(0, 4) =~= transition_words(0) + init_words(1, 4));
    assert(init_words(0, 4) =~= seq![
        BusWord::Command(CMD_BOOSTER_SOFT_START),
        BusWord::Data(0x17),
        BusWord::Data(0x17),
        BusWord::Data(0x17),
        BusWord::Command(CMD_POWER_ON),
        BusWord::Command(CMD_PANEL_SETTING),
        BusWord::Data(0x0f),
    ]);
}

/// `end_frame` writes exactly `400 * 300 / 8 = 15000` data bytes for the
/// mandatory secondary plane, all foreground, between the plane command
/// and the refresh command, regardless of primary-plane content.
pub proof fn lemma_end_frame_plane()
    ensures
        end_frame_words().len() == 15002,
        end_frame_words()[0] == BusWord::Command(CMD_DATA_START_TRANSMISSION_2),
        end_frame_words()[15001] == BusWord::Command(CMD_DISPLAY_REFRESH),
        forall|i: int| 1 <= i <= 15000 ==> end_frame_words()[i] == BusWord::Data(0xff),
{
}

/// The reset and power-up sequence: a strictly forward-progressing chain
/// of stages, each left only when the busy line or the timer allows.
enum InitState {
    Uninitialized,
    Resetting1,
    Resetting2,
    Resetting3,
    Initialized,
}

/// The GDEW042Z15 panel behind its five hardware capabilities.
pub struct GDEW042Z15<SPI, Busy, Reset, DataCmd, CS, Timer> {
    spi: SPI,
    busy: Busy,
    reset: Reset,
    data_cmd: DataCmd,
    cs: CS,
    timer: Timer,
    init_state: InitState,
    sent: Ghost<Seq<BusWord>>,
}

impl<SPI, Busy, Reset, DataCmd, CS, Timer> GDEW042Z15<SPI, Busy, Reset, DataCmd, CS, Timer> where
    SPI: DuplexBus,
    Busy: DigitalInput,
    Reset: DigitalOutput,
    DataCmd: DigitalOutput,
    CS: DigitalOutput,
    Timer: Countdown,
 {
    /// How far the init state machine has advanced: 0 is uninitialized,
    /// 4 is initialized.
    pub closed spec fn stage(&self) -> int {
        match self.init_state {
            InitState::Uninitialized => 0,
            InitState::Resetting1 => 1,
            InitState::Resetting2 => 2,
            InitState::Resetting3 => 3,
            InitState::Initialized => 4,
        }
    }

    /// Every word put on the panel bus so far, in order.
    pub closed spec fn sent_words(&self) -> Seq<BusWord> {
        self.sent@
    }

    /// Wraps the hardware handles; the panel is uninitialized and the
    /// reset, data/command and chip-select lines are deasserted.
    pub fn new(spi: SPI, busy: Busy, reset: Reset, data_cmd: DataCmd, cs: CS, timer: Timer) -> (r:
        Self)
        ensures
            r.stage() == 0,
            r.sent_words() == Seq::<BusWord>::empty(),
    {
        let mut reset = reset;
        let mut data_cmd = data_cmd;
        let mut cs = cs;
        reset.set_high();
        data_cmd.set_high();
        cs.set_high();
        GDEW042Z15 {
            spi,
            busy,
            reset,
            data_cmd,
            cs,
            timer,
            init_state: InitState::Uninitialized,
            sent: Ghost(Seq::empty()),
        }
    }

    /// Gives the hardware handles back.
    pub fn destroy(self) -> (r: (SPI, Busy, Reset, DataCmd, CS, Timer)) {
        (self.spi, self.busy, self.reset, self.data_cmd, self.cs, self.timer)
    }

    /// Sends one opcode: data/command low, chip-select asserted for
    /// exactly one byte exchange. The received byte is discarded and
    /// exchange faults are swallowed.
    fn send_command(&mut self, command: u8)
        ensures
            final(self).stage() == old(self).stage(),
            final(self).sent_words() == old(self).sent_words().push(BusWord::Command(command)),
    {
        self.data_cmd.set_low();
        self.cs.set_low();
        let _ = self.spi.exchange(command);
        self.cs.set_high();
        self.sent = Ghost(self.sent@.push(BusWord::Command(command)));
    }

    /// Sends one parameter or pixel byte: data/command high, chip-select
    /// asserted for exactly one byte exchange.
    fn send_data(&mut self, data: u8)
        ensures
            final(self).stage() == old(self).stage(),
            final(self).sent_words() == old(self).sent_words().push(BusWord::Data(data)),
    {
        self.data_cmd.set_high();
        self.cs.set_low();
        let _ = self.spi.exchange(data);
        self.cs.set_high();
        self.sent = Ghost(self.sent@.push(BusWord::Data(data)));
    }

    /// Blocks for the 2 ms settle period.
    fn delay_2ms(&mut self)
        ensures
            final(self).stage() == old(self).stage(),
            final(self).sent_words() == old(self).sent_words(),
    {
        self.timer.start(Hertz(500));
        self.timer.wait_blocking();
    }

    /// Blocks for the 10 ms grace period.
    fn delay_10ms(&mut self)
        ensures
            final(self).stage() == old(self).stage(),
            final(self).sent_words() == old(self).sent_words(),
    {
        self.timer.start(Hertz(100));
        self.timer.wait_blocking();
    }

    /// Advances the reset and power-up state machine as far as the busy
    /// line and the timer allow, and reports whether the panel is ready.
    /// The machine never moves backward; it is safe to call this
    /// repeatedly, and once ready it stays ready. The exact words each
    /// stage puts on the bus are pinned by `init_words`.
    pub fn init(&mut self) -> (r: Result<(), NotReady>)
        ensures
            old(self).stage() <= final(self).stage() <= 4,
            r is Ok <==> final(self).stage() == 4,
            final(self).sent_words() == old(self).sent_words() + init_words(
                old(self).stage(),
                final(self).stage(),
            ),
    {
        let ghost pre_stage = self.stage();
        let ghost pre_sent = self.sent_words();
        proof {
            assert(pre_sent + init_words(pre_stage, pre_stage) =~= pre_sent);
        }
        loop
            invariant
                pre_stage == old(self).stage(),
                pre_sent == old(self).sent_words(),
                pre_stage <= self.stage() <= 4,
                self.sent_words() == pre_sent + init_words(pre_stage, self.stage()),
            decreases 4 - self.stage(),
        {
            let ghost cur_stage = self.stage();
            let ghost cur_sent = self.sent_words();
            match self.init_state {
                InitState::Uninitialized => {
                    // Wait until the panel is idle (busy line high).
                    if self.busy.is_low() {
                        return Err(NotReady);
                    }
                    // Assert reset for 100 ms.
                    self.reset.set_low();
                    self.timer.start(Hertz(10));
                    self.init_state = InitState::Resetting1;
                },
                InitState::Resetting1 => {
                    if self.timer.wait().is_err() {
                        return Err(NotReady);
                    }
                    // Deassert reset and wait 100 ms for reinitialization.
                    self.reset.set_high();
                    self.timer.start(Hertz(10));
                    self.init_state = InitState::Resetting2;
                },
                InitState::Resetting2 => {
                    if self.timer.wait().is_err() {
                        return Err(NotReady);
                    }
                    // Booster soft start, then power on.
                    self.send_command(CMD_BOOSTER_SOFT_START);
                    self.send_data(0x17);
                    self.send_data(0x17);
                    self.send_data(0x17);
                    self.send_command(CMD_POWER_ON);
                    self.init_state = InitState::Resetting3;
                },
                InitState::Resetting3 => {
                    // Wait until the panel acted on the power-on command.
                    if self.busy.is_low() {
                        return Err(NotReady);
                    }
                    self.send_command(CMD_PANEL_SETTING);
                    self.send_data(0x0f);
                    self.init_state = InitState::Initialized;
                },
                InitState::Initialized => {
                    return Ok(());
                },
            }
            proof {
                assert(self.sent_words() =~= cur_sent + transition_words(cur_stage));
                lemma_init_words_snoc(pre_stage, cur_stage);
                assert(self.sent_words() =~= pre_sent + init_words(pre_stage, self.stage()));
            }
        }
    }

    /// Issues the frame-start command and the 2 ms settle delay, or
    /// reports that the panel is still acting on the previous command.
    pub fn start_frame(&mut self) -> (r: Result<(), NotReady>)
        ensures
            final(self).stage() == old(self).stage(),
            r is Err ==> final(self).sent_words() == old(self).sent_words(),
            r is Ok ==> final(self).sent_words() == old(self).sent_words().push(
                BusWord::Command(CMD_DATA_START_TRANSMISSION_1),
            ),
    {
        if self.busy.is_low() {
            return Err(NotReady);
        }
        self.send_command(CMD_DATA_START_TRANSMISSION_1);
        self.delay_2ms();
        Ok(())
    }

    /// After the caller supplied all bytes of the primary plane, sends
    /// the mandatory all-foreground second ("red") plane, issues the
    /// refresh command, and blocks out the 10 ms grace period.
    pub fn end_frame(&mut self)
        ensures
            final(self).stage() == old(self).stage(),
            final(self).sent_words() == old(self).sent_words() + end_frame_words(),
    {
        self.delay_2ms();
        self.send_command(CMD_DATA_START_TRANSMISSION_2);
        self.delay_2ms();
        let ghost pre = self.sent_words();
        // The panel protocol requires the second color plane even though
        // this system has no second color.
        let mut i: u32 = 0;
        while i < PANEL_WIDTH * PANEL_HEIGHT / 8
            invariant
                i <= PANEL_WIDTH * PANEL_HEIGHT / 8,
                self.stage() == old(self).stage(),
                self.sent_words() == pre + Seq::new(i as nat, |j: int| BusWord::Data(0xff)),
            decreases PANEL_WIDTH * PANEL_HEIGHT / 8 - i,
        {
            self.send_data(0xff);
            proof {
                assert(self.sent_words() =~= pre + Seq::new(
                    (i + 1) as nat,
                    |j: int| BusWord::Data(0xff),
                ));
            }
            i = i + 1;
        }
        self.delay_2ms();
        self.send_command(CMD_DISPLAY_REFRESH);
        // Give the display some time to deassert the busy pin.
        self.delay_10ms();
        proof {
            assert(final(self).sent_words() =~= old(self).sent_words() + end_frame_words());
        }
    }

    /// Sends one packed row of the primary plane: the first
    /// `PANEL_WIDTH / 8` bytes of `row`.
    pub fn draw_row(&mut self, row: &[u8])
        requires
            row@.len() >= PANEL_WIDTH / 8,
        ensures
            final(self).stage() == old(self).stage(),
            final(self).sent_words() == old(self).sent_words() + Seq::new(
                (PANEL_WIDTH / 8) as nat,
                |j: int| BusWord::Data(row@[j]),
            ),
    {
        let ghost pre = self.sent_words();
        proof {
            assert(pre + Seq::new(0, |j: int| BusWord::Data(row@[j])) =~= pre);
        }
        let n = (PANEL_WIDTH / 8) as usize;
        let mut i: usize = 0;
        while i < n
            invariant
                i <= n,
                n == PANEL_WIDTH / 8,
                row@.len() >= n,
                self.stage() == old(self).stage(),
                self.sent_words() == pre + Seq::new(i as nat, |j: int| BusWord::Data(row@[j])),
            decreases n - i,
        {
            self.send_data(row[i]);
            proof {
                assert(self.sent_words() =~= pre + Seq::new(
                    (i + 1) as nat,
                    |j: int| BusWord::Data(row@[j]),
                ));
            }
            i = i + 1;
        }
    }
}

impl<SPI, Busy, Reset, DataCmd, CS, Timer> Display for GDEW042Z15<
    SPI,
    Busy,
    Reset,
    DataCmd,
    CS,
    Timer,
> where
    SPI: DuplexBus,
    Busy: DigitalInput,
    Reset: DigitalOutput,
    DataCmd: DigitalOutput,
    CS: DigitalOutput,
    Timer: Countdown,
 {
    open spec fn frame(&self) -> Seq<u8> {
        data_payloads(self.sent_words())
    }

    open spec fn spec_width(&self) -> u32 {
        PANEL_WIDTH
    }

    open spec fn spec_height(&self) -> u32 {
        PANEL_HEIGHT
    }

    open spec fn end_frame_ready(&self) -> bool {
        true
    }

    fn width(&self) -> u32 {
        PANEL_WIDTH
    }

    fn height(&self) -> u32 {
        PANEL_HEIGHT
    }

    fn start_frame(&mut self) -> Result<(), NotReady> {
        self.start_frame()
    }

    fn end_frame(&mut self) {
        self.end_frame()
    }

    fn put_byte(&mut self, byte: u8) {
        let ghost pre = self.sent_words();
        self.send_data(byte);
        proof {
            lemma_data_payloads_push(pre, BusWord::Data(byte));
            assert(data_payloads(pre) + seq![byte] =~= data_payloads(pre).push(byte));
        }
    }

    fn draw_row(&mut self, row: &[u8]) {
        let ghost pre = self.sent_words();
        self.draw_row(row);
        proof {
            lemma_data_payloads_concat(
                pre,
                Seq::new((PANEL_WIDTH / 8) as nat, |j: int| BusWord::Data(row@[j])),
            );
            lemma_data_payloads_data_row(row@, (PANEL_WIDTH / 8) as int);
        }
    }
}

} // verus!
