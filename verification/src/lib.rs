//! A verified interpreter core for a fixed 8-bit instruction set of 35
//! opcodes: memory, a register file, a bounded call stack, two
//! saturating timers, a 64x32 monochrome framebuffer with XOR-blit
//! sprite drawing, and a 16-key input device with a blocking key-wait
//! sub-state.
//!
//! Every machine component carries a mathematical view, and the
//! executable fetch-decode-dispatch cycle is proved to follow the
//! spec-level transition functions `step` and `tick` exactly. The host
//! (window, audio, file and configuration loading) lives outside this
//! crate and exchanges plain values with the core: key states in,
//! frames and a tone signal out.
use vstd::prelude::*;

mod config;
mod cpu;
mod display;
mod input;
mod util;

pub use config::Config;
pub use cpu::advance;
pub use cpu::dec_timer;
pub use cpu::exec_op;
pub use cpu::faulted;
pub use cpu::initial_memory;
pub use cpu::initial_view;
pub use cpu::kk_byte;
pub use cpu::nnn_addr;
pub use cpu::op_nib;
pub use cpu::resolve_key_wait;
pub use cpu::skip_if;
pub use cpu::step;
pub use cpu::step_alu;
pub use cpu::step_bcd;
pub use cpu::step_call;
pub use cpu::step_cls;
pub use cpu::step_draw;
pub use cpu::step_fx;
pub use cpu::step_jmp;
pub use cpu::step_key_skip;
pub use cpu::step_load_regs;
pub use cpu::step_ret;
pub use cpu::step_store_regs;
pub use cpu::step_zero;
pub use cpu::tick;
pub use cpu::upd_reg;
pub use cpu::word_at;
pub use cpu::wrap_sub;
pub use cpu::x_nib;
pub use cpu::y_nib;
pub use cpu::z_nib;
pub use cpu::lemma_add_carry;
pub use cpu::lemma_add_imm;
pub use cpu::lemma_draw_twice;
pub use cpu::lemma_font_address;
pub use cpu::lemma_shift_left;
pub use cpu::lemma_shift_right;
pub use cpu::lemma_sub_borrow;
pub use cpu::lemma_subn_borrow;
pub use cpu::Chip8Error;
pub use cpu::Cpu;
pub use cpu::CpuView;
pub use cpu::MAX_PROGRAM_SIZE;
pub use cpu::MEMORY_SIZE;
pub use cpu::PROGRAM_COUNTER_START_ADDR;
pub use display::bit_weight;
pub use display::cell_index;
pub use display::colors_seq;
pub use display::flip_cell;
pub use display::hit_col;
pub use display::hit_row;
pub use display::lemma_draw_twice_collision;
pub use display::lemma_draw_twice_restores;
pub use display::lemma_hit_unique;
pub use display::wrap_inc_u64;
pub use display::draw_collides;
pub use display::draw_screen;
pub use display::draw_toggles;
pub use display::font_seq;
pub use display::font_sprites;
pub use display::next_color;
pub use display::screen_wf;
pub use display::sprite_pixel_on;
pub use display::DisplayView;
pub use display::MiniFbDisplay;
pub use display::BYTES_PER_CHARACTER;
pub use display::FONT_ARRAY_SIZE;
pub use display::NUM_FONT_CHARACTERS;
pub use display::SCREEN_HEIGHT;
pub use display::SCREEN_SIZE;
pub use display::SCREEN_WIDTH;
pub use input::first_pressed;
pub use input::first_pressed_from;
pub use input::Keymap;
pub use input::KeymapView;

