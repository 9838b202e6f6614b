//! The execution core: instruction fetch, decode and dispatch, the
//! per-opcode state-mutation semantics, the blocking key-wait handling,
//! and the timer decrement decoupled from instruction throughput.
//!
//! The whole machine is modelled by the spec-level transition function
//! `step`: one instruction from one state to the next. The executable
//! code is proved to follow it exactly.
use vstd::prelude::*;

use crate::config::Config;
use crate::display::cell_index;
use crate::display::col_weight;
use crate::display::draw_collides;
use crate::display::draw_screen;
use crate::display::font_seq;
use crate::display::font_sprites;
use crate::display::lemma_partial_draw_finish;
use crate::display::lemma_partial_draw_row_roll;
use crate::display::lemma_partial_draw_start;
use crate::display::lemma_partial_draw_step;
use crate::display::partial_draw_collides;
use crate::display::partial_draw_screen;
use crate::display::sprite_pixel_on;
use crate::display::draw_toggles;
use crate::display::lemma_draw_twice_collision;
use crate::display::lemma_draw_twice_restores;
use crate::display::wrap_inc_u64;
use crate::display::BYTES_PER_CHARACTER;
use vstd::arithmetic::div_mod::lemma_mod_add_multiples_vanish;
use crate::display::DisplayView;
use crate::display::MiniFbDisplay;
use crate::input::first_pressed;
use crate::input::Keymap;
use crate::input::KeymapView;
use crate::util::zero_bytes;
use crate::util::zero_words;

verus! {

pub const MEMORY_SIZE: u16 = 4096;

pub const PROGRAM_COUNTER_START_ADDR: u16 = 0x200;

/// The largest program that fits between the load address and the end
/// of memory.
pub const MAX_PROGRAM_SIZE: usize = 4096 - 0x200;

/// Why the machine halted: an access beyond the backing store, an
/// opcode with no decode entry, or a call-stack misuse.
#[derive(Clone, Copy, Debug, PartialEq, Eq, Structural)]
pub enum Chip8Error {
    OutOfBoundsAccess,
    UnrecognizedOpcode,
    StackUnderflow,
    StackOverflow,
}

/// Mathematical model of the whole machine.
#[verifier::ext_equal]
pub ghost struct CpuView {
    pub mem: Seq<u8>,
    pub regs: Seq<u8>,
    pub i: u16,
    pub pc: u16,
    pub stack: Seq<u16>,
    pub sp: u8,
    pub delay: u8,
    pub sound: u8,
    pub display: DisplayView,
    pub keypad: KeymapView,
    pub dead: bool,
    pub fault: Option<Chip8Error>,
    pub cycles: u64,
    pub config: Config,
}

impl CpuView {
    pub open spec fn wf(self) -> bool {
        &&& self.mem.len() == 4096
        &&& self.regs.len() == 16
        &&& self.stack.len() == 16
        &&& self.sp <= 16
        &&& self.display.wf()
        &&& self.keypad.wf()
    }
}

/// The big-endian 16-bit word at address `a`: high byte first.
pub open spec fn word_at(mem: Seq<u8>, a: int) -> u16 {
    (mem[a] * 256 + mem[a + 1]) as u16
}

/// Highest nibble of an instruction word: the operation class.
pub open spec fn op_nib(w: u16) -> int {
    w as int / 0x1000
}

/// Second nibble: the first register operand.
pub open spec fn x_nib(w: u16) -> int {
    (w as int / 0x100) % 16
}

/// Third nibble: the second register operand.
pub open spec fn y_nib(w: u16) -> int {
    (w as int / 16) % 16
}

/// Lowest nibble.
pub open spec fn z_nib(w: u16) -> int {
    w as int % 16
}

/// Low byte of an instruction word: the immediate operand.
pub open spec fn kk_byte(w: u16) -> u8 {
    (w as int % 256) as u8
}

/// Low 12 bits of an instruction word: the address operand.
pub open spec fn nnn_addr(w: u16) -> u16 {
    (w as int % 0x1000) as u16
}

/// The machine halted by error `e`: dead, with the cause surfaced.
pub open spec fn faulted(s: CpuView, e: Chip8Error) -> CpuView {
    CpuView { dead: true, fault: Some(e), ..s }
}

/// A saturating 8-bit timer decremented by one.
pub open spec fn dec_timer(t: u8) -> u8 {
    if t > 0 {
        (t - 1) as u8
    } else {
        0u8
    }
}

/// An 8-bit difference wrapped modulo 256.
pub open spec fn wrap_sub(a: u8, b: u8) -> u8 {
    ((a + 256 - b) % 256) as u8
}

/// The program counter moved past the instruction just fetched.
pub open spec fn advance(s: CpuView) -> CpuView {
    CpuView { pc: (s.pc + 2) as u16, ..s }
}

/// The next instruction conditionally skipped.
pub open spec fn skip_if(s: CpuView, c: bool) -> CpuView {
    if c {
        CpuView { pc: (s.pc + 2) as u16, ..s }
    } else {
        s
    }
}

/// One register replaced.
pub open spec fn upd_reg(s: CpuView, x: int, v: u8) -> CpuView {
    CpuView { regs: s.regs.update(x, v), ..s }
}

/// Clear-display: every framebuffer cell zeroed; the dirty flag is
/// raised if any cell was lit.
pub open spec fn step_cls(s: CpuView) -> CpuView {
    CpuView {
        display: DisplayView {
            screen: Seq::new(2048, |p: int| 0u8),
            redraw: s.display.redraw || (exists|p: int|
                0 <= p < 2048 && s.display.screen[p] != 0),
            ..s.display
        },
        ..s
    }
}

/// Return: the program counter popped off the call stack.
pub open spec fn step_ret(s: CpuView) -> CpuView {
    if s.sp == 0 {
        faulted(s, Chip8Error::StackUnderflow)
    } else {
        CpuView { pc: s.stack[s.sp - 1], sp: (s.sp - 1) as u8, ..s }
    }
}

/// Jump, with the deliberate-termination check: a jump whose target
/// holds the identical jump instruction marks the run as finished.
pub open spec fn step_jmp(s: CpuView, nnn: u16, w: u16) -> CpuView {
    if nnn + 1 >= 4096 {
        faulted(s, Chip8Error::OutOfBoundsAccess)
    } else {
        CpuView { pc: nnn, dead: s.dead || word_at(s.mem, nnn as int) == w, ..s }
    }
}

/// Call: the advanced program counter pushed, then the jump taken.
pub open spec fn step_call(s: CpuView, nnn: u16) -> CpuView {
    if s.sp >= 16 {
        faulted(s, Chip8Error::StackOverflow)
    } else {
        CpuView {
            stack: s.stack.update(s.sp as int, s.pc),
            sp: (s.sp + 1) as u8,
            pc: nnn,
            ..s
        }
    }
}

/// The register-to-register arithmetic and logic group. The flag
/// register is written before the result register, so a result aimed
/// at the flag register overwrites the flag.
pub open spec fn step_alu(s: CpuView, x: int, y: int, z: int) -> CpuView {
    let vx = s.regs[x];
    let vy = s.regs[y];
    if z == 0 {
        upd_reg(s, x, vy)
    } else if z == 1 {
        upd_reg(s, x, vx | vy)
    } else if z == 2 {
        upd_reg(s, x, vx & vy)
    } else if z == 3 {
        upd_reg(s, x, vx ^ vy)
    } else if z == 4 {
        CpuView {
            regs: s.regs.update(15, if vx + vy > 255 { 1u8 } else { 0u8 }).update(
                x,
                ((vx + vy) % 256) as u8,
            ),
            ..s
        }
    } else if z == 5 {
        CpuView {
            regs: s.regs.update(15, if vx > vy { 1u8 } else { 0u8 }).update(x, wrap_sub(vx, vy)),
            ..s
        }
    } else if z == 6 {
        CpuView { regs: s.regs.update(15, (vx % 2) as u8).update(x, (vx / 2) as u8), ..s }
    } else if z == 7 {
        CpuView {
            regs: s.regs.update(15, if vy > vx { 1u8 } else { 0u8 }).update(x, wrap_sub(vy, vx)),
            ..s
        }
    } else if z == 0xE {
        CpuView {
            regs: s.regs.update(15, (vx / 128) as u8).update(x, ((vx * 2) % 256) as u8),
            ..s
        }
    } else {
        faulted(s, Chip8Error::UnrecognizedOpcode)
    }
}

/// Sprite draw: XOR-blit `n` scanlines from memory at the index
/// register onto the framebuffer at the coordinates in the operand
/// registers; the flag register reports collision, and a collision
/// marks the framebuffer dirty.
pub open spec fn step_draw(s: CpuView, x: int, y: int, n: int) -> CpuView {
    if n > 0 && s.i + n > 4096 {
        faulted(s, Chip8Error::OutOfBoundsAccess)
    } else {
        let vx = s.regs[x];
        let vy = s.regs[y];
        let collide = draw_collides(
            s.display.screen,
            s.mem,
            s.i as int,
            vx as int,
            vy as int,
            n,
        );
        CpuView {
            regs: s.regs.update(15, if collide { 1u8 } else { 0u8 }),
            display: DisplayView {
                screen: draw_screen(s.display.screen, s.mem, s.i as int, vx as int, vy as int, n),
                redraw: s.display.redraw || collide,
                ..s.display
            },
            ..s
        }
    }
}

/// The key-state skip group: skip on a pressed (or released) key named
/// by a register; a register value beyond the 16 keys is an
/// out-of-range access.
pub open spec fn step_key_skip(s: CpuView, x: int, y: int, z: int) -> CpuView {
    if y == 9 && z == 0xE {
        if s.regs[x] >= 16 {
            faulted(s, Chip8Error::OutOfBoundsAccess)
        } else {
            skip_if(s, s.keypad.keys[s.regs[x] as int])
        }
    } else if y == 0xA && z == 1 {
        if s.regs[x] >= 16 {
            faulted(s, Chip8Error::OutOfBoundsAccess)
        } else {
            skip_if(s, !s.keypad.keys[s.regs[x] as int])
        }
    } else {
        faulted(s, Chip8Error::UnrecognizedOpcode)
    }
}

/// Store the binary-coded-decimal digits of a register value at the
/// index register: hundreds, tens, units.
pub open spec fn step_bcd(s: CpuView, x: int) -> CpuView {
    if s.i + 2 >= 4096 {
        faulted(s, Chip8Error::OutOfBoundsAccess)
    } else {
        let vx = s.regs[x];
        CpuView {
            mem: s.mem.update(s.i as int, (vx as int / 100) as u8).update(
                s.i as int + 1,
                ((vx as int % 100) / 10) as u8,
            ).update(s.i as int + 2, (vx as int % 10) as u8),
            ..s
        }
    }
}

/// Store registers 0 through `x` into memory at the index register.
pub open spec fn step_store_regs(s: CpuView, x: int) -> CpuView {
    if s.i + x >= 4096 {
        faulted(s, Chip8Error::OutOfBoundsAccess)
    } else {
        CpuView {
            mem: Seq::new(
                4096,
                |a: int|
                    if s.i <= a <= s.i + x {
                        s.regs[a - s.i]
                    } else {
                        s.mem[a]
                    },
            ),
            ..s
        }
    }
}

/// Load registers 0 through `x` from memory at the index register.
pub open spec fn step_load_regs(s: CpuView, x: int) -> CpuView {
    if s.i + x >= 4096 {
        faulted(s, Chip8Error::OutOfBoundsAccess)
    } else {
        CpuView {
            regs: Seq::new(
                16,
                |r: int|
                    if r <= x {
                        s.mem[s.i + r]
                    } else {
                        s.regs[r]
                    },
            ),
            ..s
        }
    }
}

/// The timer, key-wait, index-register and register-file group.
pub open spec fn step_fx(s: CpuView, x: int, y: int, z: int) -> CpuView {
    if z == 7 {
        upd_reg(s, x, s.delay)
    } else if z == 0xA {
        CpuView {
            keypad: KeymapView { awaiting: true, awaiting_register: x, ..s.keypad },
            ..s
        }
    } else if y == 1 && z == 5 {
        CpuView { delay: s.regs[x], ..s }
    } else if y == 1 && z == 8 {
        CpuView { sound: s.regs[x], ..s }
    } else if y == 1 && z == 0xE {
        let ni = ((s.i + s.regs[x]) % 0x10000) as u16;
        CpuView { i: ni, regs: s.regs.update(15, if ni > 0xF00 { 1u8 } else { 0u8 }), ..s }
    } else if y == 2 && z == 9 {
        CpuView { i: (s.regs[x] * 5) as u16, ..s }
    } else if y == 3 && z == 3 {
        step_bcd(s, x)
    } else if y == 5 && z == 5 {
        step_store_regs(s, x)
    } else if y == 6 && z == 5 {
        step_load_regs(s, x)
    } else {
        faulted(s, Chip8Error::UnrecognizedOpcode)
    }
}

/// The system group: no-op, clear-display, and return.
pub open spec fn step_zero(s: CpuView, x: int, y: int, z: int) -> CpuView {
    if x == 0 && y == 0 && z == 0 {
        s
    } else if x == 0 && y == 0xE && z == 0 {
        step_cls(s)
    } else if x == 0 && y == 0xE && z == 0xE {
        step_ret(s)
    } else {
        faulted(s, Chip8Error::UnrecognizedOpcode)
    }
}

/// Dispatch of an already-fetched instruction word on a state whose
/// program counter has already advanced.
pub open spec fn exec_op(s: CpuView, w: u16, rand: u8) -> CpuView {
    let op = op_nib(w);
    let x = x_nib(w);
    let y = y_nib(w);
    let z = z_nib(w);
    let kk = kk_byte(w);
    let nnn = nnn_addr(w);
    if op == 0 {
        step_zero(s, x, y, z)
    } else if op == 1 {
        step_jmp(s, nnn, w)
    } else if op == 2 {
        step_call(s, nnn)
    } else if op == 3 {
        skip_if(s, s.regs[x] == kk)
    } else if op == 4 {
        skip_if(s, s.regs[x] != kk)
    } else if op == 5 {
        if z == 0 {
            skip_if(s, s.regs[x] == s.regs[y])
        } else {
            faulted(s, Chip8Error::UnrecognizedOpcode)
        }
    } else if op == 6 {
        upd_reg(s, x, kk)
    } else if op == 7 {
        upd_reg(s, x, ((s.regs[x] + kk) % 256) as u8)
    } else if op == 8 {
        step_alu(s, x, y, z)
    } else if op == 9 {
        if z == 0 {
            skip_if(s, s.regs[x] != s.regs[y])
        } else {
            faulted(s, Chip8Error::UnrecognizedOpcode)
        }
    } else if op == 0xA {
        CpuView { i: nnn, ..s }
    } else if op == 0xB {
        CpuView { pc: (s.regs[0] + nnn) as u16, ..s }
    } else if op == 0xC {
        upd_reg(s, x, rand & kk)
    } else if op == 0xD {
        step_draw(s, x, y, z)
    } else if op == 0xE {
        step_key_skip(s, x, y, z)
    } else {
        step_fx(s, x, y, z)
    }
}

/// One full instruction cycle: fetch the word at the program counter
/// (an access past the backing store halts the machine), advance the
/// program counter by two, then dispatch. `rand` is the injected
/// random byte, read only by the random-mask opcode.
pub open spec fn step(s: CpuView, rand: u8) -> CpuView {
    if s.pc + 1 >= 4096 {
        faulted(s, Chip8Error::OutOfBoundsAccess)
    } else {
        exec_op(advance(s), word_at(s.mem, s.pc as int), rand)
    }
}

/// A resolved key wait: the lowest pressed key index (the documented
/// tie-break) is written to the awaited register and the wait ends; no
/// press leaves the machine waiting.
pub open spec fn resolve_key_wait(s: CpuView) -> CpuView {
    match first_pressed(s.keypad.keys) {
        Some(k) => CpuView {
            regs: s.regs.update(s.keypad.awaiting_register, k as u8),
            keypad: KeymapView { awaiting: false, ..s.keypad },
            ..s
        },
        None => s,
    }
}

/// One driver tick: refresh the key states, then either resolve a
/// pending key wait or execute exactly one instruction; independently,
/// when the timer cadence is due, decrement both timers (saturating at
/// zero), and report whether the audio collaborator is to be signalled.
/// A dead machine ignores the tick.
pub open spec fn tick(s: CpuView, keys: Seq<bool>, timer_due: bool, rand: u8) -> (
    CpuView,
    bool,
) {
    if s.dead {
        (s, false)
    } else {
        let s1 = CpuView { keypad: KeymapView { keys: keys, ..s.keypad }, ..s };
        let s2 = if s1.keypad.awaiting {
            resolve_key_wait(s1)
        } else {
            step(s1, rand)
        };
        let tone = timer_due && s2.sound > 0 && s.config.play_sound;
        let s3 = if timer_due {
            CpuView { delay: dec_timer(s2.delay), sound: dec_timer(s2.sound), ..s2 }
        } else {
            s2
        };
        (CpuView { cycles: wrap_inc_u64(s3.cycles), ..s3 }, tone)
    }
}

/// The memory contents right after load: font glyphs low, zeroes up to
/// the load address, the program verbatim from there, zeroes after.
pub open spec fn initial_memory(program: Seq<u8>) -> Seq<u8> {
    Seq::new(
        4096,
        |a: int|
            if 0 <= a < 80 {
                font_seq()[a]
            } else if 0x200 <= a < 0x200 + program.len() {
                program[a - 0x200]
            } else {
                0u8
            },
    )
}

/// The machine state right after load.
pub open spec fn initial_view(program: Seq<u8>, config: Config) -> CpuView {
    CpuView {
        mem: initial_memory(program),
        regs: Seq::new(16, |r: int| 0u8),
        i: 0u16,
        pc: 0x200u16,
        stack: Seq::new(16, |k: int| 0u16),
        sp: 0u8,
        delay: 0u8,
        sound: 0u8,
        display: DisplayView {
            color: config.initial_color,
            redraw: true,
            screen: Seq::new(2048, |p: int| 0u8),
            times_rendered: 0u64,
        },
        keypad: KeymapView { keys: Seq::new(16, |k: int| false), awaiting: false, awaiting_register: 0 },
        dead: false,
        fault: None,
        cycles: 0u64,
        config: config,
    }
}

/// Relies on rand::random with the StandardUniform distribution: one
/// uniformly distributed byte from the thread-local generator. Nothing
/// can be promised of a random value, so the contract is empty; every
/// caller states what holds of each possible outcome.
#[verifier::external_body]
fn random_byte() -> u8 {
    rand::random::<u8>()
}

/// The machine: memory, register file, call stack, timers, display,
/// keypad, and the interpreter bookkeeping.
pub struct Cpu {
    memory: Vec<u8>,
    pub registers: Vec<u8>,
    pub i: u16,
    pub program_counter: u16,
    pub stack: Vec<u16>,
    pub stack_pointer: u8,
    pub delay_timer: u8,
    pub sound_timer: u8,
    pub display: MiniFbDisplay,
    keypad: Keymap,
    dead: bool,
    pub fault: Option<Chip8Error>,
    total_cycles: u64,
    pub config: Config,
}

impl View for Cpu {
    type V = CpuView;

    closed spec fn view(&self) -> CpuView {
        CpuView {
            mem: self.memory@,
            regs: self.registers@,
            i: self.i,
            pc: self.program_counter,
            stack: self.stack@,
            sp: self.stack_pointer,
            delay: self.delay_timer,
            sound: self.sound_timer,
            display: self.display@,
            keypad: self.keypad@,
            dead: self.dead,
            fault: self.fault,
            cycles: self.total_cycles,
            config: self.config,
        }
    }
}

impl Cpu {
    /// Load a machine: font glyphs into low memory, the program at the
    /// load address, everything else zeroed. A program too large for
    /// memory is rejected.
    pub fn new(program: &Vec<u8>, config: Config) -> (r: Result<Cpu, Chip8Error>)
        ensures
            match r {
                Ok(cpu) => {
                    &&& program@.len() <= MAX_PROGRAM_SIZE
                    &&& cpu@.wf()
                    &&& cpu@ == initial_view(program@, config)
                },
                Err(e) => {
                    &&& program@.len() > MAX_PROGRAM_SIZE
                    &&& e == Chip8Error::OutOfBoundsAccess
                },
            },
    {
        if program.len() > MAX_PROGRAM_SIZE {
            return Err(Chip8Error::OutOfBoundsAccess);
        }
        let mut memory = zero_bytes(MEMORY_SIZE as usize);
        let fonts = font_sprites();
        let mut k: usize = 0;
        while k < 80
            invariant
                k <= 80,
                memory@.len() == 4096,
                fonts@ == font_seq(),
                forall|a: int| 0 <= a < k ==> memory@[a] == font_seq()[a],
                forall|a: int| k <= a < 4096 ==> memory@[a] == 0u8,
            decreases 80 - k,
        {
            memory.set(k, fonts[k]);
            k = k + 1;
        }
        let mut j: usize = 0;
        while j < program.len()
            invariant
                j <= program.len(),
                program.len() <= MAX_PROGRAM_SIZE,
                memory@.len() == 4096,
                forall|a: int| 0 <= a < 80 ==> memory@[a] == font_seq()[a],
                forall|a: int| 0x200 <= a < 0x200 + j ==> memory@[a] == program@[a - 0x200],
                forall|a: int| 80 <= a < 0x200 ==> memory@[a] == 0u8,
                forall|a: int| 0x200 + j <= a < 4096 ==> memory@[a] == 0u8,
            decreases program.len() - j,
        {
            memory.set(0x200 + j, program[j]);
            j = j + 1;
        }
        let mut cpu = Cpu {
            memory,
            registers: zero_bytes(16),
            i: 0,
            program_counter: PROGRAM_COUNTER_START_ADDR,
            stack: zero_words(16),
            stack_pointer: 0,
            delay_timer: 0,
            sound_timer: 0,
            display: MiniFbDisplay::new(config.initial_color),
            keypad: Keymap::new(),
            dead: false,
            fault: None,
            total_cycles: 0,
            config,
        };
        cpu.display.set_redraw(true);
        proof {
            assert(cpu@.mem =~= initial_memory(program@));
            assert(cpu@ =~= initial_view(program@, config));
        }
        Ok(cpu)
    }

    pub fn is_running(&self) -> (r: bool)
        ensures
            r == !self@.dead,
    {
        !self.dead
    }

    pub fn get_total_cycles(&self) -> (r: u64)
        ensures
            r == self@.cycles,
    {
        self.total_cycles
    }

    pub fn get_times_screen_rendered(&self) -> (r: u64)
        ensures
            r == self@.display.times_rendered,
    {
        self.display.get_times_rendered()
    }

    /// Whether the machine is parked waiting for a key press. While it
    /// is, the driver neither renders nor expects instructions to run.
    pub fn is_awaiting_keypress(&self) -> (r: bool)
        ensures
            r == self@.keypad.awaiting,
    {
        self.keypad.is_awaiting_keypress()
    }

    /// Pop a return address; an empty stack is a structured error.
    pub fn pop(&mut self) -> (r: Result<u16, Chip8Error>)
        requires
            old(self)@.wf(),
        ensures
            final(self)@.wf(),
            match r {
                Ok(v) => {
                    &&& old(self)@.sp > 0
                    &&& v == old(self)@.stack[old(self)@.sp - 1]
                    &&& final(self)@ == (CpuView { sp: (old(self)@.sp - 1) as u8, ..old(self)@ })
                },
                Err(e) => {
                    &&& old(self)@.sp == 0
                    &&& e == Chip8Error::StackUnderflow
                    &&& final(self)@ == old(self)@
                },
            },
    {
        if self.stack_pointer == 0 {
            return Err(Chip8Error::StackUnderflow);
        }
        self.stack_pointer = self.stack_pointer - 1;
        Ok(self.stack[self.stack_pointer as usize])
    }

    /// Push a return address; a full stack is a structured error.
    pub fn push(&mut self, value: u16) -> (r: Result<(), Chip8Error>)
        requires
            old(self)@.wf(),
        ensures
            final(self)@.wf(),
            match r {
                Ok(u) => {
                    &&& old(self)@.sp < 16
                    &&& final(self)@ == (CpuView {
                        stack: old(self)@.stack.update(old(self)@.sp as int, value),
                        sp: (old(self)@.sp + 1) as u8,
                        ..old(self)@
                    })
                },
                Err(e) => {
                    &&& old(self)@.sp >= 16
                    &&& e == Chip8Error::StackOverflow
                    &&& final(self)@ == old(self)@
                },
            },
    {
        if self.stack_pointer >= 16 {
            return Err(Chip8Error::StackOverflow);
        }
        self.stack.set(self.stack_pointer as usize, value);
        self.stack_pointer = self.stack_pointer + 1;
        Ok(())
    }

    /// Read one byte; an address past the backing store is a
    /// structured error.
    pub fn read(&self, address: u16) -> (r: Result<u8, Chip8Error>)
        requires
            self@.wf(),
        ensures
            match r {
                Ok(b) => address < 4096 && b == self@.mem[address as int],
                Err(e) => address >= 4096 && e == Chip8Error::OutOfBoundsAccess,
            },
    {
        if address >= MEMORY_SIZE {
            return Err(Chip8Error::OutOfBoundsAccess);
        }
        Ok(self.memory[address as usize])
    }

    /// Read the big-endian 16-bit word at `address`.
    pub fn read_word(&self, address: u16) -> (r: Result<u16, Chip8Error>)
        requires
            self@.wf(),
        ensures
            match r {
                Ok(v) => address + 1 < 4096 && v == word_at(self@.mem, address as int),
                Err(e) => address + 1 >= 4096 && e == Chip8Error::OutOfBoundsAccess,
            },
    {
        if address >= MEMORY_SIZE - 1 {
            return Err(Chip8Error::OutOfBoundsAccess);
        }
        let high = self.memory[address as usize];
        let low = self.memory[address as usize + 1];
        Ok((high as u16) * 256 + (low as u16))
    }

    /// Write one byte; an address past the backing store is a
    /// structured error.
    pub fn write(&mut self, address: u16, value: u8) -> (r: Result<(), Chip8Error>)
        requires
            old(self)@.wf(),
        ensures
            final(self)@.wf(),
            match r {
                Ok(u) => address < 4096 && final(self)@ == (CpuView {
                    mem: old(self)@.mem.update(address as int, value),
                    ..old(self)@
                }),
                Err(e) => {
                    &&& address >= 4096
                    &&& e == Chip8Error::OutOfBoundsAccess
                    &&& final(self)@ == old(self)@
                },
            },
    {
        if address >= MEMORY_SIZE {
            return Err(Chip8Error::OutOfBoundsAccess);
        }
        self.memory.set(address as usize, value);
        Ok(())
    }

    /// Halt with a structured error surfaced to the driver.
    fn halt(&mut self, e: Chip8Error)
        ensures
            final(self)@ == faulted(old(self)@, e),
    {
        self.dead = true;
        self.fault = Some(e);
    }

    /// Overwrite the flag register.
    fn set_carry_flag(&mut self, value: u8)
        requires
            old(self)@.wf(),
        ensures
            final(self)@.wf(),
            final(self)@ == (CpuView { regs: old(self)@.regs.update(15, value), ..old(self)@ }),
    {
        self.registers.set(15, value);
    }

    /// The sprite-draw opcode: XOR-blit with collision detection.
    #[verifier::loop_isolation(false)]
    fn op_draw(&mut self, x: usize, y: usize, n: usize)
        requires
            old(self)@.wf(),
            x < 16,
            y < 16,
            n < 16,
        ensures
            final(self)@.wf(),
            final(self)@ == step_draw(old(self)@, x as int, y as int, n as int),
    {
        if n > 0 && (self.i as usize) + n > 4096 {
            self.halt(Chip8Error::OutOfBoundsAccess);
            return ;
        }
        let vx = self.registers[x];
        let vy = self.registers[y];
        let ghost scr0 = old(self)@.display.screen;
        let ghost mem0 = old(self)@.mem;
        let ghost base = old(self)@.i as int;
        let ghost vxi = vx as int;
        let ghost vyi = vy as int;
        let ghost ni = n as int;
        self.set_carry_flag(0);
        proof {
            lemma_partial_draw_start(scr0, mem0, base, vxi, vyi, ni);
        }
        let mut collision = false;
        let mut height: usize = 0;
        while height < n
            invariant
                height <= n,
                n == 0 || base + n <= 4096,
                self@ == (CpuView {
                    regs: old(self)@.regs.update(15, 0u8),
                    display: DisplayView {
                        screen: self@.display.screen,
                        ..old(self)@.display
                    },
                    ..old(self)@
                }),
                self@.display.screen == partial_draw_screen(
                    scr0,
                    mem0,
                    base,
                    vxi,
                    vyi,
                    ni,
                    height as int,
                    0,
                ),
                collision == partial_draw_collides(
                    scr0,
                    mem0,
                    base,
                    vxi,
                    vyi,
                    ni,
                    height as int,
                    0,
                ),
                self@.display.wf(),
            decreases n - height,
        {
            let line = self.memory[(self.i as usize) + height];
            assert(line == mem0[base + height]);
            let mut bit: usize = 0;
            while bit < 8
                invariant
                    bit <= 8,
                    height < n,
                    line == mem0[base + height],
                    self@ == (CpuView {
                        regs: old(self)@.regs.update(15, 0u8),
                        display: DisplayView {
                            screen: self@.display.screen,
                            ..old(self)@.display
                        },
                        ..old(self)@
                    }),
                    self@.display.screen == partial_draw_screen(
                        scr0,
                        mem0,
                        base,
                        vxi,
                        vyi,
                        ni,
                        height as int,
                        bit as int,
                    ),
                    collision == partial_draw_collides(
                        scr0,
                        mem0,
                        base,
                        vxi,
                        vyi,
                        ni,
                        height as int,
                        bit as int,
                    ),
                    self@.display.wf(),
                decreases 8 - bit,
            {
                let weight = col_weight(bit);
                proof {
                    lemma_partial_draw_step(
                        scr0,
                        mem0,
                        base,
                        vxi,
                        vyi,
                        ni,
                        height as int,
                        bit as int,
                    );
                }
                let ghost p0 = cell_index((vxi + bit) % 64, (vyi + height) % 32);
                if (line / weight) % 2 == 1 {
                    assert(sprite_pixel_on(mem0[base + height], bit as int));
                    let px = ((vx as usize) + bit) % 64;
                    let py = ((vy as usize) + height) % 32;
                    let pos = py * 64 + px;
                    assert(pos as int == p0);
                    let cur = self.display.read(pos);
                    assert(cur == scr0[p0]);
                    if cur == 1 {
                        collision = true;
                    }
                    self.display.write(
                        pos,
                        if cur == 1 {
                            0
                        } else {
                            1
                        },
                    );
                    proof {
                        assert(self@.display.screen =~= partial_draw_screen(
                            scr0,
                            mem0,
                            base,
                            vxi,
                            vyi,
                            ni,
                            height as int,
                            bit as int + 1,
                        ));
                    }
                } else {
                    proof {
                        assert(!sprite_pixel_on(mem0[base + height], bit as int));
                    }
                }
                bit = bit + 1;
            }
            proof {
                lemma_partial_draw_row_roll(scr0, mem0, base, vxi, vyi, ni, height as int);
            }
            height = height + 1;
        }
        proof {
            lemma_partial_draw_finish(scr0, mem0, base, vxi, vyi, ni);
        }
        if collision {
            self.set_carry_flag(1);
            self.display.set_redraw(true);
        }
        proof {
            assert(final(self)@ =~~= step_draw(old(self)@, x as int, y as int, n as int));
        }
    }

    /// Store registers 0 through `x` into memory at the index register.
    #[verifier::loop_isolation(false)]
    fn op_store_regs(&mut self, x: usize)
        requires
            old(self)@.wf(),
            x < 16,
        ensures
            final(self)@.wf(),
            final(self)@ == step_store_regs(old(self)@, x as int),
    {
        if (self.i as usize) + x >= 4096 {
            self.halt(Chip8Error::OutOfBoundsAccess);
            return ;
        }
        let base = self.i as usize;
        let mut k: usize = 0;
        while k < x + 1
            invariant
                k <= x + 1,
                base + x < 4096,
                base == old(self)@.i,
                self@ == (CpuView { mem: self@.mem, ..old(self)@ }),
                self@.mem.len() == 4096,
                forall|a: int|
                    0 <= a < 4096 && !(base <= a < base + k) ==> self@.mem[a] == old(self)@.mem[a],
                forall|a: int| base <= a < base + k ==> self@.mem[a] == old(self)@.regs[a - base],
            decreases x + 1 - k,
        {
            let v = self.registers[k];
            self.memory.set(base + k, v);
            k = k + 1;
        }
        proof {
            assert(self@.mem =~= step_store_regs(old(self)@, x as int).mem);
            assert(final(self)@ =~~= step_store_regs(old(self)@, x as int));
        }
    }

    /// Load registers 0 through `x` from memory at the index register.
    #[verifier::loop_isolation(false)]
    fn op_load_regs(&mut self, x: usize)
        requires
            old(self)@.wf(),
            x < 16,
        ensures
            final(self)@.wf(),
            final(self)@ == step_load_regs(old(self)@, x as int),
    {
        if (self.i as usize) + x >= 4096 {
            self.halt(Chip8Error::OutOfBoundsAccess);
            return ;
        }
        let base = self.i as usize;
        let mut k: usize = 0;
        while k < x + 1
            invariant
                k <= x + 1,
                base + x < 4096,
                base == old(self)@.i,
                self@ == (CpuView { regs: self@.regs, ..old(self)@ }),
                self@.regs.len() == 16,
                forall|r: int| 0 <= r < k ==> self@.regs[r] == old(self)@.mem[base + r],
                forall|r: int| k <= r < 16 ==> self@.regs[r] == old(self)@.regs[r],
            decreases x + 1 - k,
        {
            let v = self.memory[base + k];
            self.registers.set(k, v);
            k = k + 1;
        }
        proof {
            assert(self@.regs =~= step_load_regs(old(self)@, x as int).regs);
            assert(final(self)@ =~~= step_load_regs(old(self)@, x as int));
        }
    }


    /// The system group: no-op, clear-display, return.
    fn op_zero(&mut self, x: usize, y: usize, z: usize)
        requires
            old(self)@.wf(),
        ensures
            final(self)@.wf(),
            final(self)@ == step_zero(old(self)@, x as int, y as int, z as int),
    {
        if x == 0 && y == 0 && z == 0 {
            // system call: not used by interpreters
        } else if x == 0 && y == 0xE && z == 0 {
            self.display.clear();
        } else if x == 0 && y == 0xE && z == 0xE {
            match self.pop() {
                Ok(v) => {
                    self.program_counter = v;
                },
                Err(e) => {
                    self.halt(e);
                },
            }
        } else {
            self.halt(Chip8Error::UnrecognizedOpcode);
        }
        proof {
            assert(final(self)@ =~~= step_zero(old(self)@, x as int, y as int, z as int));
        }
    }

    /// The register-to-register arithmetic and logic group.
    fn op_alu(&mut self, x: usize, y: usize, z: usize)
        requires
            old(self)@.wf(),
            x < 16,
            y < 16,
        ensures
            final(self)@.wf(),
            final(self)@ == step_alu(old(self)@, x as int, y as int, z as int),
    {
        let vx = self.registers[x];
        let vy = self.registers[y];
        if z == 0 {
            self.registers.set(x, vy);
        } else if z == 1 {
            self.registers.set(x, vx | vy);
        } else if z == 2 {
            self.registers.set(x, vx & vy);
        } else if z == 3 {
            self.registers.set(x, vx ^ vy);
        } else if z == 4 {
            let sum: u16 = vx as u16 + vy as u16;
            self.set_carry_flag(
                if sum > 255 {
                    1
                } else {
                    0
                },
            );
            self.registers.set(x, (sum % 256) as u8);
        } else if z == 5 {
            self.set_carry_flag(
                if vx > vy {
                    1
                } else {
                    0
                },
            );
            self.registers.set(x, (((vx as u16) + 256 - (vy as u16)) % 256) as u8);
        } else if z == 6 {
            self.set_carry_flag(vx % 2);
            self.registers.set(x, vx / 2);
        } else if z == 7 {
            self.set_carry_flag(
                if vy > vx {
                    1
                } else {
                    0
                },
            );
            self.registers.set(x, (((vy as u16) + 256 - (vx as u16)) % 256) as u8);
        } else if z == 0xE {
            self.set_carry_flag(vx / 128);
            self.registers.set(x, (((vx as u16) * 2) % 256) as u8);
        } else {
            self.halt(Chip8Error::UnrecognizedOpcode);
        }
        proof {
            assert(final(self)@ =~~= step_alu(old(self)@, x as int, y as int, z as int));
        }
    }

    /// The key-state skip group.
    fn op_key_skip(&mut self, x: usize, y: usize, z: usize)
        requires
            old(self)@.wf(),
            x < 16,
            old(self)@.pc + 2 < 0x10000,
        ensures
            final(self)@.wf(),
            final(self)@ == step_key_skip(old(self)@, x as int, y as int, z as int),
    {
        if y == 9 && z == 0xE {
            let key = self.registers[x];
            if key >= 16 {
                self.halt(Chip8Error::OutOfBoundsAccess);
            } else if self.keypad.is_key_pressed(key as usize) {
                self.program_counter = self.program_counter + 2;
            }
        } else if y == 0xA && z == 1 {
            let key = self.registers[x];
            if key >= 16 {
                self.halt(Chip8Error::OutOfBoundsAccess);
            } else if !self.keypad.is_key_pressed(key as usize) {
                self.program_counter = self.program_counter + 2;
            }
        } else {
            self.halt(Chip8Error::UnrecognizedOpcode);
        }
        proof {
            assert(final(self)@ =~~= step_key_skip(old(self)@, x as int, y as int, z as int));
        }
    }

    /// The timer, key-wait, index-register and register-file group.
    fn op_fx(&mut self, x: usize, y: usize, z: usize)
        requires
            old(self)@.wf(),
            x < 16,
        ensures
            final(self)@.wf(),
            final(self)@ == step_fx(old(self)@, x as int, y as int, z as int),
    {
        if z == 7 {
            let d = self.delay_timer;
            self.registers.set(x, d);
        } else if z == 0xA {
            self.keypad.set_awaiting_keypress(true);
            self.keypad.set_awaiting_keypress_register(x);
        } else if y == 1 && z == 5 {
            self.delay_timer = self.registers[x];
        } else if y == 1 && z == 8 {
            self.sound_timer = self.registers[x];
        } else if y == 1 && z == 0xE {
            let ni: u16 = (((self.i as u32) + (self.registers[x] as u32)) % 0x10000) as u16;
            self.i = ni;
            self.set_carry_flag(
                if ni > 0xF00 {
                    1
                } else {
                    0
                },
            );
        } else if y == 2 && z == 9 {
            self.i = (self.registers[x] as u16) * 5;
        } else if y == 3 && z == 3 {
            if self.i >= 4094 {
                self.halt(Chip8Error::OutOfBoundsAccess);
            } else {
                let v = self.registers[x];
                let addr = self.i as usize;
                self.memory.set(addr, v / 100);
                self.memory.set(addr + 1, (v % 100) / 10);
                self.memory.set(addr + 2, v % 10);
            }
        } else if y == 5 && z == 5 {
            self.op_store_regs(x);
        } else if y == 6 && z == 5 {
            self.op_load_regs(x);
        } else {
            self.halt(Chip8Error::UnrecognizedOpcode);
        }
        proof {
            assert(final(self)@ =~~= step_fx(old(self)@, x as int, y as int, z as int));
        }
    }

    /// Execute exactly one instruction: fetch the big-endian word at
    /// the program counter, advance the program counter by two before
    /// dispatch, then apply the opcode's semantics. `rand` is the
    /// injected random byte, read only by the random-mask opcode, so
    /// execution is deterministic and replayable.
    #[verifier::rlimit(80)]
    #[verifier::spinoff_prover]
    pub fn emulate_cycle(&mut self, rand: u8)
        requires
            old(self)@.wf(),
        ensures
            final(self)@.wf(),
            final(self)@ == step(old(self)@, rand),
    {
        let ghost s0 = old(self)@;
        let pc = self.program_counter;
        if pc >= 4095 {
            self.halt(Chip8Error::OutOfBoundsAccess);
            return ;
        }
        let high = self.memory[pc as usize];
        let low = self.memory[pc as usize + 1];
        let w: u16 = (high as u16) * 256 + (low as u16);
        self.program_counter = pc + 2;
        let ghost s1 = advance(s0);
        proof {
            assert(self@ =~~= s1);
            assert(w == word_at(s0.mem, s0.pc as int));
        }
        let op: u16 = w / 0x1000;
        let x: usize = ((w / 0x100) % 16) as usize;
        let y: usize = ((w / 16) % 16) as usize;
        let z: u16 = w % 16;
        let kk: u8 = (w % 256) as u8;
        let nnn: u16 = w % 0x1000;
        proof {
            assert(op as int == op_nib(w));
            assert(x as int == x_nib(w));
            assert(y as int == y_nib(w));
            assert(z as int == z_nib(w));
            assert(kk == kk_byte(w));
            assert(nnn == nnn_addr(w));
        }
        if op == 0 {
            self.op_zero(x, y, z as usize);
            proof {
                assert(self@ == step(s0, rand));
            }
        } else if op == 1 {
            if nnn >= 4095 {
                self.halt(Chip8Error::OutOfBoundsAccess);
            } else {
                let th = self.memory[nnn as usize];
                let tl = self.memory[nnn as usize + 1];
                let tw: u16 = (th as u16) * 256 + (tl as u16);
                if tw == w {
                    self.dead = true;
                }
                self.program_counter = nnn;
            }
            proof {
                assert(self@ =~~= step(s0, rand));
            }
        } else if op == 2 {
            let ret_addr = self.program_counter;
            match self.push(ret_addr) {
                Ok(u) => {
                    self.program_counter = nnn;
                },
                Err(e) => {
                    self.halt(e);
                },
            }
            proof {
                assert(self@ =~~= step(s0, rand));
            }
        } else if op == 3 {
            if self.registers[x] == kk {
                self.program_counter = self.program_counter + 2;
            }
            proof {
                assert(self@ =~~= step(s0, rand));
            }
        } else if op == 4 {
            if self.registers[x] != kk {
                self.program_counter = self.program_counter + 2;
            }
            proof {
                assert(self@ =~~= step(s0, rand));
            }
        } else if op == 5 {
            if z == 0 {
                if self.registers[x] == self.registers[y] {
                    self.program_counter = self.program_counter + 2;
                }
            } else {
                self.halt(Chip8Error::UnrecognizedOpcode);
            }
            proof {
                assert(self@ =~~= step(s0, rand));
            }
        } else if op == 6 {
            self.registers.set(x, kk);
            proof {
                assert(self@ =~~= step(s0, rand));
            }
        } else if op == 7 {
            let sum: u16 = self.registers[x] as u16 + kk as u16;
            self.registers.set(x, (sum % 256) as u8);
            proof {
                assert(self@ =~~= step(s0, rand));
            }
        } else if op == 8 {
            self.op_alu(x, y, z as usize);
            proof {
                assert(self@ == step(s0, rand));
            }
        } else if op == 9 {
            if z == 0 {
                if self.registers[x] != self.registers[y] {
                    self.program_counter = self.program_counter + 2;
                }
            } else {
                self.halt(Chip8Error::UnrecognizedOpcode);
            }
            proof {
                assert(self@ =~~= step(s0, rand));
            }
        } else if op == 0xA {
            self.i = nnn;
            proof {
                assert(self@ =~~= step(s0, rand));
            }
        } else if op == 0xB {
            self.program_counter = self.registers[0] as u16 + nnn;
            proof {
                assert(self@ =~~= step(s0, rand));
            }
        } else if op == 0xC {
            self.registers.set(x, rand & kk);
            proof {
                assert(self@ =~~= step(s0, rand));
            }
        } else if op == 0xD {
            self.op_draw(x, y, z as usize);
            proof {
                assert(self@ =~~= step(s0, rand));
            }
        } else if op == 0xE {
            self.op_key_skip(x, y as usize, z as usize);
            proof {
                assert(self@ == step(s0, rand));
            }
        } else {
            self.op_fx(x, y as usize, z as usize);
            proof {
                assert(self@ == step(s0, rand));
            }
        }
    }

    /// One driver tick: refresh the key states from the host's
    /// snapshot, then either resolve a pending key wait or execute one
    /// instruction (drawing the random byte from the generator);
    /// independently, when `timer_due` signals that the timer cadence
    /// has elapsed, decrement both timers, saturating at zero. The
    /// result tells the driver to signal the audio collaborator. A
    /// dead machine ignores the tick.
    pub fn run(&mut self, keys: &Vec<bool>, timer_due: bool) -> (tone: bool)
        requires
            old(self)@.wf(),
            keys@.len() == 16,
        ensures
            final(self)@.wf(),
            exists|r: u8|
                (final(self)@, tone) == #[trigger] tick(old(self)@, keys@, timer_due, r),
    {
        let ghost s0 = old(self)@;
        if self.dead {
            proof {
                assert((self@, false) == tick(s0, keys@, timer_due, 0u8));
            }
            return false;
        }
        self.keypad.update(keys);
        let ghost s1 = CpuView { keypad: KeymapView { keys: keys@, ..s0.keypad }, ..s0 };
        proof {
            assert(self@ =~~= s1);
        }
        let ghost mut wr: u8 = 0u8;
        if self.keypad.is_awaiting_keypress() {
            match self.keypad.await_keypress() {
                Some(key) => {
                    let reg = self.keypad.get_awaiting_keypress_register();
                    self.registers.set(reg, key);
                },
                None => {},
            }
            proof {
                assert(self@ =~~= resolve_key_wait(s1));
            }
        } else {
            let r = random_byte();
            self.emulate_cycle(r);
            proof {
                wr = r;
            }
        }
        let ghost s2 = self@;
        proof {
            assert(s2 == if s1.keypad.awaiting {
                resolve_key_wait(s1)
            } else {
                step(s1, wr)
            });
        }
        let mut tone = false;
        if timer_due {
            if self.delay_timer > 0 {
                self.delay_timer = self.delay_timer - 1;
            }
            if self.sound_timer > 0 {
                self.sound_timer = self.sound_timer - 1;
                if self.config.play_sound {
                    tone = true;
                }
            }
        }
        self.total_cycles = self.total_cycles.wrapping_add(1);
        proof {
            assert((self@, tone) == tick(s0, keys@, timer_due, wr));
        }
        tone
    }
}


/// For the register-to-register add, the flag register equals 1 exactly
/// when the unsigned 9-bit sum of the two 8-bit operands exceeds 255,
/// and the result register holds the low 8 bits of that sum. A result
/// aimed at the flag register itself overwrites the flag, so that case
/// is left out.
pub proof fn lemma_add_carry(s: CpuView, x: int, y: int)
    requires
        s.wf(),
        0 <= x < 15,
        0 <= y < 16,
    ensures
        ({
            let t = step_alu(s, x, y, 4);
            &&& t.regs[15] == (if s.regs[x] + s.regs[y] > 255 {
                1u8
            } else {
                0u8
            })
            &&& t.regs[x] == ((s.regs[x] + s.regs[y]) % 256) as u8
        }),
{
}

/// The immediate add wraps modulo 256, the result register holding the
/// low 8 bits of the sum, and writes no flag: the flag register keeps
/// its value unless it is itself the destination.
pub proof fn lemma_add_imm(s: CpuView, w: u16, rand: u8)
    requires
        s.wf(),
        op_nib(w) == 7,
    ensures
        ({
            let t = exec_op(s, w, rand);
            let x = x_nib(w);
            &&& t.regs[x] == ((s.regs[x] + kk_byte(w)) % 256) as u8
            &&& x != 15 ==> t.regs[15] == s.regs[15]
        }),
{
}

/// For the subtract opcode, the flag register equals 1 exactly when the
/// minuend strictly exceeds the subtrahend; whenever the operands
/// differ that is the same as "no borrow" (minuend at least the
/// subtrahend), and the result wraps modulo 256. A result aimed at the
/// flag register itself overwrites the flag, so that case is left out.
pub proof fn lemma_sub_borrow(s: CpuView, x: int, y: int)
    requires
        s.wf(),
        0 <= x < 15,
        0 <= y < 16,
    ensures
        ({
            let t = step_alu(s, x, y, 5);
            &&& (t.regs[15] == 1u8 <==> s.regs[x] > s.regs[y])
            &&& (s.regs[x] != s.regs[y] ==> (t.regs[15] == 1u8 <==> s.regs[x] >= s.regs[y]))
            &&& t.regs[x] == ((s.regs[x] - s.regs[y]) % 256) as u8
        }),
{
    lemma_mod_add_multiples_vanish(s.regs[x] - s.regs[y], 256);
}

/// The reversed subtract, with the roles of the operand registers
/// exchanged: flag 1 exactly when the second operand strictly exceeds
/// the first, and the difference wraps modulo 256.
pub proof fn lemma_subn_borrow(s: CpuView, x: int, y: int)
    requires
        s.wf(),
        0 <= x < 15,
        0 <= y < 16,
    ensures
        ({
            let t = step_alu(s, x, y, 7);
            &&& (t.regs[15] == 1u8 <==> s.regs[y] > s.regs[x])
            &&& (s.regs[x] != s.regs[y] ==> (t.regs[15] == 1u8 <==> s.regs[y] >= s.regs[x]))
            &&& t.regs[x] == ((s.regs[y] - s.regs[x]) % 256) as u8
        }),
{
    lemma_mod_add_multiples_vanish(s.regs[y] - s.regs[x], 256);
}

/// Shift-right sets the flag register to the pre-shift low bit and
/// halves the operand. A result aimed at the flag register itself
/// overwrites the flag, so that case is left out.
pub proof fn lemma_shift_right(s: CpuView, x: int, y: int)
    requires
        s.wf(),
        0 <= x < 15,
        0 <= y < 16,
    ensures
        ({
            let t = step_alu(s, x, y, 6);
            &&& t.regs[15] == (s.regs[x] % 2) as u8
            &&& t.regs[x] == (s.regs[x] / 2) as u8
        }),
{
}

/// Shift-left sets the flag register to the pre-shift high bit and
/// doubles the operand modulo 256. A result aimed at the flag register
/// itself overwrites the flag, so that case is left out.
pub proof fn lemma_shift_left(s: CpuView, x: int, y: int)
    requires
        s.wf(),
        0 <= x < 15,
        0 <= y < 16,
    ensures
        ({
            let t = step_alu(s, x, y, 0xE);
            &&& t.regs[15] == (s.regs[x] / 128) as u8
            &&& t.regs[x] == ((s.regs[x] * 2) % 256) as u8
        }),
{
}

/// The font-address opcode sets the index register to the operand
/// digit times the per-glyph stride.
pub proof fn lemma_font_address(s: CpuView, x: int)
    requires
        s.wf(),
        0 <= x < 16,
    ensures
        step_fx(s, x, 2, 9).i == s.regs[x] * BYTES_PER_CHARACTER,
{
}

/// Drawing the same sprite twice at the same location restores the
/// prior framebuffer (XOR idempotence over two applications). The
/// first draw's flag register reports exactly whether any
/// previously-set cell was toggled; after the second draw the flag is
/// clear exactly when no sprite pixel had landed on a previously-clear
/// cell. Coordinate registers aimed at the flag register would be
/// rewritten by the first draw, so those cases are left out.
pub proof fn lemma_draw_twice(s: CpuView, x: int, y: int, n: int)
    requires
        s.wf(),
        0 <= x < 15,
        0 <= y < 15,
        0 <= n < 16,
        n > 0 ==> s.i + n <= 4096,
    ensures
        ({
            let t = step_draw(s, x, y, n);
            let u = step_draw(t, x, y, n);
            &&& u.display.screen == s.display.screen
            &&& (t.regs[15] == 1u8 <==> draw_collides(
                s.display.screen,
                s.mem,
                s.i as int,
                s.regs[x] as int,
                s.regs[y] as int,
                n,
            ))
            &&& (u.regs[15] == 0u8 <==> !(exists|p: int|
                0 <= p < 2048 && #[trigger] draw_toggles(
                    s.mem,
                    s.i as int,
                    s.regs[x] as int,
                    s.regs[y] as int,
                    n,
                    p,
                ) && s.display.screen[p] == 0))
        }),
{
    let scr = s.display.screen;
    let vx = s.regs[x] as int;
    let vy = s.regs[y] as int;
    let t = step_draw(s, x, y, n);
    let u = step_draw(t, x, y, n);
    assert(t.regs[x] == s.regs[x] && t.regs[y] == s.regs[y]);
    lemma_draw_twice_restores(scr, s.mem, s.i as int, vx, vy, n);
    lemma_draw_twice_collision(scr, s.mem, s.i as int, vx, vy, n);
    assert(u.display.screen =~= s.display.screen);
}


} // verus!
