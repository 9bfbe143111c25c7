use crate::display::{blank, collides, drawn, Display, DrawResult};
use crate::keypad::{all_up, KeyState, Keypad};
use crate::ram::{word, zeros, RAM};
use arrayvec::ArrayVec;
use vstd::arithmetic::div_mod::lemma_fundamental_div_mod_converse;
use vstd::prelude::*;

verus! {

#[verifier::external_type_specification]
#[verifier::external_body]
#[verifier::reject_recursive_types(T)]
pub struct ExArrayVec<T, const CAP: usize>(ArrayVec<T, CAP>);

/// The return addresses held by a call stack, oldest first.
pub uninterp spec fn stack_contents(s: ArrayVec<u16, 16>) -> Seq<u16>;

/// Relies on ArrayVec::new: the new vector holds nothing.
#[verifier::external_body]
fn stack_new() -> (r: ArrayVec<u16, 16>)
    ensures
        stack_contents(r) == Seq::<u16>::empty(),
{
    ArrayVec::new()
}

/// Relies on ArrayVec::try_push: below capacity the value is appended, at capacity the
/// vector is left as it was and an error comes back.
#[verifier::external_body]
fn stack_try_push(s: &mut ArrayVec<u16, 16>, v: u16) -> (r: bool)
    ensures
        stack_contents(*old(s)).len() < 16 ==> r && stack_contents(*final(s)) == stack_contents(
            *old(s),
        ).push(v),
        stack_contents(*old(s)).len() >= 16 ==> !r && stack_contents(*final(s)) == stack_contents(
            *old(s),
        ),
{
    s.try_push(v).is_ok()
}

/// Relies on ArrayVec::pop: removes and returns the last value, or returns `None` when empty.
#[verifier::external_body]
fn stack_pop(s: &mut ArrayVec<u16, 16>) -> (r: Option<u16>)
    ensures
        stack_contents(*old(s)).len() == 0 ==> r is None && stack_contents(*final(s))
            == stack_contents(*old(s)),
        stack_contents(*old(s)).len() > 0 ==> r == Some(stack_contents(*old(s)).last())
            && stack_contents(*final(s)) == stack_contents(*old(s)).drop_last(),
{
    s.pop()
}

/// Relies on ArrayVec::clear: removes every value.
#[verifier::external_body]
fn stack_clear(s: &mut ArrayVec<u16, 16>)
    ensures
        stack_contents(*final(s)) == Seq::<u16>::empty(),
{
    s.clear()
}

/// Relies on ArrayVec::len: the number of values held.
#[verifier::external_body]
fn stack_len(s: &ArrayVec<u16, 16>) -> (r: usize)
    ensures
        r == stack_contents(*s).len(),
{
    s.len()
}

/// Relies on rand::random: a byte from the thread-local generator; nothing is known of it.
#[verifier::external_body]
fn random_byte() -> u8 {
    rand::random::<u8>()
}

/// The built-in hexadecimal glyphs, five bytes per digit 0 to F.
pub const FONT_SET: [u8; 80] = [
    0xF0, 0x90, 0x90, 0x90, 0xF0,  // 0
    0x20, 0x60, 0x20, 0x20, 0x70,  // 1
    0xF0, 0x10, 0xF0, 0x80, 0xF0,  // 2
    0xF0, 0x10, 0xF0, 0x10, 0xF0,  // 3
    0x90, 0x90, 0xF0, 0x10, 0x10,  // 4
    0xF0, 0x80, 0xF0, 0x10, 0xF0,  // 5
    0xF0, 0x80, 0xF0, 0x90, 0xF0,  // 6
    0xF0, 0x10, 0x20, 0x40, 0x40,  // 7
    0xF0, 0x90, 0xF0, 0x90, 0xF0,  // 8
    0xF0, 0x90, 0xF0, 0x10, 0xF0,  // 9
    0xF0, 0x90, 0xF0, 0x90, 0x90,  // A
    0xE0, 0x90, 0xE0, 0x90, 0xE0,  // B
    0xF0, 0x80, 0x80, 0x80, 0xF0,  // C
    0xE0, 0x90, 0x90, 0x90, 0xE0,  // D
    0xF0, 0x80, 0xF0, 0x80, 0xF0,  // E
    0xF0, 0x80, 0xF0, 0x80, 0x80,  // F
];

/// Address at which program images are loaded.
pub const PROGRAM_START: u16 = 0x200;

/// A fatal condition that halts the machine.
#[derive(PartialEq, Eq, Structural, Copy, Clone, Debug)]
pub enum Fault {
    UnsupportedOpcode(u16),
    StackOverflow,
    StackUnderflow,
    IndexOverflow,
    AddressOutOfRange,
    KeyOutOfRange,
}

/// Why a program image was not loaded.
#[derive(PartialEq, Eq, Structural, Copy, Clone, Debug)]
pub enum LoadError {
    ProgramTooLarge,
}

/// A decoded instruction; `x` and `y` name registers, `nnn` is an address,
/// `kk` a byte and `n` a sprite height.
#[derive(PartialEq, Eq, Structural, Copy, Clone, Debug)]
pub enum Instruction {
    Clear,
    Return,
    Jump { nnn: u16 },
    Call { nnn: u16 },
    SkipEqByte { x: usize, kk: u8 },
    SkipNeByte { x: usize, kk: u8 },
    SkipEqReg { x: usize, y: usize },
    LoadByte { x: usize, kk: u8 },
    AddByte { x: usize, kk: u8 },
    LoadReg { x: usize, y: usize },
    Or { x: usize, y: usize },
    And { x: usize, y: usize },
    Xor { x: usize, y: usize },
    AddReg { x: usize, y: usize },
    SubReg { x: usize, y: usize },
    ShiftRight { x: usize },
    SubNeg { x: usize, y: usize },
    ShiftLeft { x: usize },
    SkipNeReg { x: usize, y: usize },
    LoadIndex { nnn: u16 },
    JumpOffset { nnn: u16 },
    Random { x: usize, kk: u8 },
    Draw { x: usize, y: usize, n: u8 },
    SkipKeyDown { x: usize },
    SkipKeyUp { x: usize },
    LoadDelay { x: usize },
    WaitKey { x: usize },
    SetDelay { x: usize },
    SetSound { x: usize },
    AddIndex { x: usize },
    LoadGlyph { x: usize },
    StoreBcd { x: usize },
    StoreRegs { x: usize },
    LoadRegs { x: usize },
}

/// The instruction that a 16-bit word encodes, if any.
pub open spec fn decode_spec(op: u16) -> Option<Instruction> {
    let n0 = op / 4096;
    let n1 = (op / 256) % 16;
    let n2 = (op / 16) % 16;
    let n3 = op % 16;
    let x = n1 as usize;
    let y = n2 as usize;
    let nnn = op % 4096;
    let kk = (op % 256) as u8;
    if op == 0x00E0 {
        Some(Instruction::Clear)
    } else if op == 0x00EE {
        Some(Instruction::Return)
    } else if n0 == 1 {
        Some(Instruction::Jump { nnn })
    } else if n0 == 2 {
        Some(Instruction::Call { nnn })
    } else if n0 == 3 {
        Some(Instruction::SkipEqByte { x, kk })
    } else if n0 == 4 {
        Some(Instruction::SkipNeByte { x, kk })
    } else if n0 == 5 && n3 == 0 {
        Some(Instruction::SkipEqReg { x, y })
    } else if n0 == 6 {
        Some(Instruction::LoadByte { x, kk })
    } else if n0 == 7 {
        Some(Instruction::AddByte { x, kk })
    } else if n0 == 8 && n3 == 0 {
        Some(Instruction::LoadReg { x, y })
    } else if n0 == 8 && n3 == 1 {
        Some(Instruction::Or { x, y })
    } else if n0 == 8 && n3 == 2 {
        Some(Instruction::And { x, y })
    } else if n0 == 8 && n3 == 3 {
        Some(Instruction::Xor { x, y })
    } else if n0 == 8 && n3 == 4 {
        Some(Instruction::AddReg { x, y })
    } else if n0 == 8 && n3 == 5 {
        Some(Instruction::SubReg { x, y })
    } else if n0 == 8 && n3 == 6 {
        Some(Instruction::ShiftRight { x })
    } else if n0 == 8 && n3 == 7 {
        Some(Instruction::SubNeg { x, y })
    } else if n0 == 8 && n3 == 0xE {
        Some(Instruction::ShiftLeft { x })
    } else if n0 == 9 && n3 == 0 {
        Some(Instruction::SkipNeReg { x, y })
    } else if n0 == 0xA {
        Some(Instruction::LoadIndex { nnn })
    } else if n0 == 0xB {
        Some(Instruction::JumpOffset { nnn })
    } else if n0 == 0xC {
        Some(Instruction::Random { x, kk })
    } else if n0 == 0xD {
        Some(Instruction::Draw { x, y, n: n3 as u8 })
    } else if n0 == 0xE && kk == 0x9E {
        Some(Instruction::SkipKeyDown { x })
    } else if n0 == 0xE && kk == 0xA1 {
        Some(Instruction::SkipKeyUp { x })
    } else if n0 == 0xF && kk == 0x07 {
        Some(Instruction::LoadDelay { x })
    } else if n0 == 0xF && kk == 0x0A {
        Some(Instruction::WaitKey { x })
    } else if n0 == 0xF && kk == 0x15 {
        Some(Instruction::SetDelay { x })
    } else if n0 == 0xF && kk == 0x18 {
        Some(Instruction::SetSound { x })
    } else if n0 == 0xF && kk == 0x1E {
        Some(Instruction::AddIndex { x })
    } else if n0 == 0xF && kk == 0x29 {
        Some(Instruction::LoadGlyph { x })
    } else if n0 == 0xF && kk == 0x33 {
        Some(Instruction::StoreBcd { x })
    } else if n0 == 0xF && kk == 0x55 {
        Some(Instruction::StoreRegs { x })
    } else if n0 == 0xF && kk == 0x65 {
        Some(Instruction::LoadRegs { x })
    } else {
        None
    }
}

/// The whole observable state of the machine.
pub ghost struct MachineState {
    pub memory: Seq<u8>,
    pub pixels: Seq<bool>,
    pub registers: Seq<u8>,
    pub keys: Seq<KeyState>,
    pub pc: u16,
    pub index: u16,
    pub stack: Seq<u16>,
    pub delay: u8,
    pub sound: u8,
}

/// The instruction at the program counter lies wholly inside memory.
pub open spec fn pc_valid(s: MachineState) -> bool {
    s.pc + 1 < 4096
}

/// The instruction word at the program counter.
pub open spec fn fetch(s: MachineState) -> u16 {
    word(s.memory[s.pc as int], s.memory[s.pc + 1])
}

/// `s` with register `x` set to `v`.
pub open spec fn with_reg(s: MachineState, x: int, v: u8) -> MachineState {
    MachineState { registers: s.registers.update(x, v), ..s }
}

/// `s` with register `x` set to `v` after the flag register was set to `flag`.
pub open spec fn with_flag(s: MachineState, x: int, v: u8, flag: u8) -> MachineState {
    with_reg(with_reg(s, 15, flag), x, v)
}

/// `s` with the program counter moved on by one instruction.
pub open spec fn advanced(s: MachineState) -> MachineState {
    MachineState { pc: (s.pc + 2) as u16, ..s }
}

/// `s`, moved on by one more instruction when `cond` holds.
pub open spec fn skip_if(s: MachineState, cond: bool) -> MachineState {
    if cond {
        advanced(s)
    } else {
        s
    }
}

/// The lowest key index at or above `k` whose key is down.
pub open spec fn first_down(keys: Seq<KeyState>, k: int) -> Option<int>
    decreases 16 - k,
{
    if k >= 16 {
        None
    } else if keys[k] == KeyState::Down {
        Some(k)
    } else {
        first_down(keys, k + 1)
    }
}

/// Wrapping byte sum.
pub open spec fn wrap_add(a: u8, b: u8) -> u8 {
    ((a + b) % 256) as u8
}

/// Wrapping byte difference.
pub open spec fn wrap_sub(a: u8, b: u8) -> u8 {
    ((a - b + 256) % 256) as u8
}

/// Whether an instruction's memory operand stretches past the end of memory.
pub open spec fn out_of_memory(s: MachineState, len: int) -> bool {
    s.index + len > 4096
}

/// The effect of one decoded instruction on `s` (whose program counter still points at
/// it), with `rnd` as the random byte; an error names the fault that halts the machine.
pub open spec fn execute_spec(s: MachineState, ins: Instruction, rnd: u8) -> Result<MachineState, Fault> {
    let a = advanced(s);
    let v = s.registers;
    match ins {
        Instruction::Clear => Ok(MachineState { pixels: blank(), ..a }),
        Instruction::Return => if s.stack.len() == 0 {
            Err(Fault::StackUnderflow)
        } else {
            Ok(MachineState { pc: s.stack.last(), stack: s.stack.drop_last(), ..a })
        },
        Instruction::Jump { nnn } => Ok(MachineState { pc: nnn, ..a }),
        Instruction::Call { nnn } => if s.stack.len() >= 16 {
            Err(Fault::StackOverflow)
        } else {
            Ok(MachineState { pc: nnn, stack: s.stack.push(a.pc), ..a })
        },
        Instruction::SkipEqByte { x, kk } => Ok(skip_if(a, v[x as int] == kk)),
        Instruction::SkipNeByte { x, kk } => Ok(skip_if(a, v[x as int] != kk)),
        Instruction::SkipEqReg { x, y } => Ok(skip_if(a, v[x as int] == v[y as int])),
        Instruction::LoadByte { x, kk } => Ok(with_reg(a, x as int, kk)),
        Instruction::AddByte { x, kk } => Ok(with_reg(a, x as int, wrap_add(v[x as int], kk))),
        Instruction::LoadReg { x, y } => Ok(with_reg(a, x as int, v[y as int])),
        Instruction::Or { x, y } => Ok(with_reg(a, x as int, v[x as int] | v[y as int])),
        Instruction::And { x, y } => Ok(with_reg(a, x as int, v[x as int] & v[y as int])),
        Instruction::Xor { x, y } => Ok(with_reg(a, x as int, v[x as int] ^ v[y as int])),
        Instruction::AddReg { x, y } => Ok(
            with_flag(
                a,
                x as int,
                wrap_add(v[x as int], v[y as int]),
                if v[x as int] + v[y as int] >= 256 { 1 } else { 0 },
            ),
        ),
        Instruction::SubReg { x, y } => Ok(
            with_flag(
                a,
                x as int,
                wrap_sub(v[x as int], v[y as int]),
                if v[x as int] >= v[y as int] { 1 } else { 0 },
            ),
        ),
        Instruction::ShiftRight { x } => Ok(
            with_flag(a, x as int, v[x as int] / 2, v[x as int] % 2),
        ),
        Instruction::SubNeg { x, y } => Ok(
            with_flag(
                a,
                x as int,
                wrap_sub(v[y as int], v[x as int]),
                if v[y as int] >= v[x as int] { 1 } else { 0 },
            ),
        ),
        Instruction::ShiftLeft { x } => Ok(
            with_flag(
                a,
                x as int,
                ((v[x as int] * 2) % 256) as u8,
                if v[x as int] >= 128 { 128 } else { 0 },
            ),
        ),
        Instruction::SkipNeReg { x, y } => Ok(skip_if(a, v[x as int] != v[y as int])),
        Instruction::LoadIndex { nnn } => Ok(MachineState { index: nnn, ..a }),
        Instruction::JumpOffset { nnn } => Ok(MachineState { pc: (nnn + v[0]) as u16, ..a }),
        Instruction::Random { x, kk } => Ok(with_reg(a, x as int, rnd & kk)),
        Instruction::Draw { x, y, n } => if out_of_memory(s, n as int) {
            Err(Fault::AddressOutOfRange)
        } else {
            let sprite = s.memory.subrange(s.index as int, s.index + n);
            let moved = MachineState {
                pixels: drawn(s.pixels, v[x as int] as int, v[y as int] as int, sprite),
                ..a
            };
            Ok(
                with_reg(
                    moved,
                    15,
                    if collides(s.pixels, v[x as int] as int, v[y as int] as int, sprite) {
                        1
                    } else {
                        0
                    },
                ),
            )
        },
        Instruction::SkipKeyDown { x } => if v[x as int] >= 16 {
            Err(Fault::KeyOutOfRange)
        } else {
            Ok(skip_if(a, s.keys[v[x as int] as int] == KeyState::Down))
        },
        Instruction::SkipKeyUp { x } => if v[x as int] >= 16 {
            Err(Fault::KeyOutOfRange)
        } else {
            Ok(skip_if(a, s.keys[v[x as int] as int] == KeyState::Up))
        },
        Instruction::LoadDelay { x } => Ok(with_reg(a, x as int, s.delay)),
        Instruction::WaitKey { x } => match first_down(s.keys, 0) {
            Some(k) => Ok(with_reg(a, x as int, k as u8)),
            None => Ok(s),
        },
        Instruction::SetDelay { x } => Ok(MachineState { delay: v[x as int], ..a }),
        Instruction::SetSound { x } => Ok(MachineState { sound: v[x as int], ..a }),
        Instruction::AddIndex { x } => if s.index + v[x as int] > 0xFFFF {
            Err(Fault::IndexOverflow)
        } else {
            Ok(MachineState { index: (s.index + v[x as int]) as u16, ..a })
        },
        Instruction::LoadGlyph { x } => Ok(MachineState { index: (v[x as int] * 5) as u16, ..a }),
        Instruction::StoreBcd { x } => if out_of_memory(s, 3) {
            Err(Fault::AddressOutOfRange)
        } else {
            let i = s.index as int;
            let d = v[x as int];
            Ok(
                MachineState {
                    memory: s.memory.update(i, d / 100).update(i + 1, (d / 10) % 10).update(
                        i + 2,
                        d % 10,
                    ),
                    ..a
                },
            )
        },
        Instruction::StoreRegs { x } => if out_of_memory(s, x + 1) {
            Err(Fault::AddressOutOfRange)
        } else {
            let i = s.index as int;
            Ok(
                MachineState {
                    memory: s.memory.subrange(0, i) + v.subrange(0, x + 1) + s.memory.subrange(
                        i + x + 1,
                        4096,
                    ),
                    ..a
                },
            )
        },
        Instruction::LoadRegs { x } => if out_of_memory(s, x + 1) {
            Err(Fault::AddressOutOfRange)
        } else {
            let i = s.index as int;
            Ok(
                MachineState {
                    registers: s.memory.subrange(i, i + x + 1) + v.subrange(x + 1, 16),
                    ..a
                },
            )
        },
    }
}

/// The effect of the instruction word `op` on `s`, whose program counter points at it.
pub open spec fn process_spec(s: MachineState, op: u16, rnd: u8) -> Result<MachineState, Fault> {
    if !pc_valid(s) {
        Err(Fault::AddressOutOfRange)
    } else {
        match decode_spec(op) {
            None => Err(Fault::UnsupportedOpcode(op)),
            Some(ins) => execute_spec(s, ins, rnd),
        }
    }
}

/// The effect of one fetch-decode-execute cycle on `s`.
pub open spec fn step_spec(s: MachineState, rnd: u8) -> Result<MachineState, Fault> {
    if !pc_valid(s) {
        Err(Fault::AddressOutOfRange)
    } else {
        process_spec(s, fetch(s), rnd)
    }
}

/// Whether the cycle from `s` consumes a random byte.
pub open spec fn draws_random(s: MachineState) -> bool {
    pc_valid(s) && decode_spec(fetch(s)) matches Some(Instruction::Random { .. })
}

/// A call that returned `r` and took the state from `before` to `after` did what `res` says:
/// the new state on success, nothing on a fault.
pub open spec fn outcome(res: Result<MachineState, Fault>, r: Result<(), Fault>, before: MachineState, after: MachineState) -> bool {
    match res {
        Ok(t) => r is Ok && after == t,
        Err(e) => r == Err::<(), Fault>(e) && after == before,
    }
}

/// Memory as `reset` leaves it: the glyphs, then zeros.
pub open spec fn reset_memory() -> Seq<u8> {
    FONT_SET@ + zeros(4016)
}

/// The state that `reset` leaves.
pub open spec fn reset_state() -> MachineState {
    MachineState {
        memory: reset_memory(),
        pixels: blank(),
        registers: zeros(16),
        keys: all_up(),
        pc: 0x200,
        index: 0,
        stack: Seq::empty(),
        delay: 0,
        sound: 0,
    }
}

/// Register operands name one of the sixteen registers and sprite heights fit in a nibble.
pub open spec fn operands_valid(ins: Instruction) -> bool {
    match ins {
        Instruction::SkipEqReg { x, y } | Instruction::LoadReg { x, y } | Instruction::Or { x, y }
        | Instruction::And { x, y } | Instruction::Xor { x, y } | Instruction::AddReg { x, y }
        | Instruction::SubReg { x, y } | Instruction::SubNeg { x, y } | Instruction::SkipNeReg {
            x,
            y,
        } => x < 16 && y < 16,
        Instruction::Draw { x, y, n } => x < 16 && y < 16 && n < 16,
        Instruction::SkipEqByte { x, .. } | Instruction::SkipNeByte { x, .. }
        | Instruction::LoadByte { x, .. } | Instruction::AddByte { x, .. } | Instruction::Random {
            x,
            ..
        } | Instruction::ShiftRight { x } | Instruction::ShiftLeft { x }
        | Instruction::SkipKeyDown { x } | Instruction::SkipKeyUp { x } | Instruction::LoadDelay {
            x,
        } | Instruction::WaitKey { x } | Instruction::SetDelay { x } | Instruction::SetSound { x }
        | Instruction::AddIndex { x } | Instruction::LoadGlyph { x } | Instruction::StoreBcd { x }
        | Instruction::StoreRegs { x } | Instruction::LoadRegs { x } => x < 16,
        Instruction::Jump { nnn } | Instruction::Call { nnn } | Instruction::LoadIndex { nnn }
        | Instruction::JumpOffset { nnn } => nnn < 4096,
        _ => true,
    }
}

/// The sizes that every machine state has.
pub open spec fn state_wf(s: MachineState) -> bool {
    &&& s.memory.len() == 4096
    &&& s.pixels.len() == 2048
    &&& s.registers.len() == 16
    &&& s.keys.len() == 16
}

impl Instruction {
    /// Decodes an instruction word; `None` for a word that encodes no instruction.
    pub fn decode(op: u16) -> (r: Option<Instruction>)
        ensures
            r == decode_spec(op),
            r matches Some(ins) ==> operands_valid(ins),
    {
        let n0 = op / 4096;
        let n3 = op % 16;
        let x = ((op / 256) % 16) as usize;
        let y = ((op / 16) % 16) as usize;
        let nnn = op % 4096;
        let kk = (op % 256) as u8;
        if op == 0x00E0 {
            Some(Instruction::Clear)
        } else if op == 0x00EE {
            Some(Instruction::Return)
        } else if n0 == 1 {
            Some(Instruction::Jump { nnn })
        } else if n0 == 2 {
            Some(Instruction::Call { nnn })
        } else if n0 == 3 {
            Some(Instruction::SkipEqByte { x, kk })
        } else if n0 == 4 {
            Some(Instruction::SkipNeByte { x, kk })
        } else if n0 == 5 && n3 == 0 {
            Some(Instruction::SkipEqReg { x, y })
        } else if n0 == 6 {
            Some(Instruction::LoadByte { x, kk })
        } else if n0 == 7 {
            Some(Instruction::AddByte { x, kk })
        } else if n0 == 8 && n3 == 0 {
            Some(Instruction::LoadReg { x, y })
        } else if n0 == 8 && n3 == 1 {
            Some(Instruction::Or { x, y })
        } else if n0 == 8 && n3 == 2 {
            Some(Instruction::And { x, y })
        } else if n0 == 8 && n3 == 3 {
            Some(Instruction::Xor { x, y })
        } else if n0 == 8 && n3 == 4 {
            Some(Instruction::AddReg { x, y })
        } else if n0 == 8 && n3 == 5 {
            Some(Instruction::SubReg { x, y })
        } else if n0 == 8 && n3 == 6 {
            Some(Instruction::ShiftRight { x })
        } else if n0 == 8 && n3 == 7 {
            Some(Instruction::SubNeg { x, y })
        } else if n0 == 8 && n3 == 0xE {
            Some(Instruction::ShiftLeft { x })
        } else if n0 == 9 && n3 == 0 {
            Some(Instruction::SkipNeReg { x, y })
        } else if n0 == 0xA {
            Some(Instruction::LoadIndex { nnn })
        } else if n0 == 0xB {
            Some(Instruction::JumpOffset { nnn })
        } else if n0 == 0xC {
            Some(Instruction::Random { x, kk })
        } else if n0 == 0xD {
            Some(Instruction::Draw { x, y, n: n3 as u8 })
        } else if n0 == 0xE && kk == 0x9E {
            Some(Instruction::SkipKeyDown { x })
        } else if n0 == 0xE && kk == 0xA1 {
            Some(Instruction::SkipKeyUp { x })
        } else if n0 == 0xF && kk == 0x07 {
            Some(Instruction::LoadDelay { x })
        } else if n0 == 0xF && kk == 0x0A {
            Some(Instruction::WaitKey { x })
        } else if n0 == 0xF && kk == 0x15 {
            Some(Instruction::SetDelay { x })
        } else if n0 == 0xF && kk == 0x18 {
            Some(Instruction::SetSound { x })
        } else if n0 == 0xF && kk == 0x1E {
            Some(Instruction::AddIndex { x })
        } else if n0 == 0xF && kk == 0x29 {
            Some(Instruction::LoadGlyph { x })
        } else if n0 == 0xF && kk == 0x33 {
            Some(Instruction::StoreBcd { x })
        } else if n0 == 0xF && kk == 0x55 {
            Some(Instruction::StoreRegs { x })
        } else if n0 == 0xF && kk == 0x65 {
            Some(Instruction::LoadRegs { x })
        } else {
            None
        }
    }
}

/// Adds two bytes with wraparound; the flag tells whether the sum overflowed 8 bits.
pub fn add_with_carry(a: u8, b: u8) -> (r: (u8, bool))
    ensures
        r.0 == wrap_add(a, b),
        r.1 == (a + b >= 256),
        r.0 == (a + b) % 256,
{
    let sum = a as u16 + b as u16;
    ((sum % 256) as u8, sum >= 256)
}

/// Subtracts `b` from `a` with wraparound; the flag tells whether no borrow occurred.
pub fn sub_without_borrow(a: u8, b: u8) -> (r: (u8, bool))
    ensures
        r.0 == wrap_sub(a, b),
        r.1 == (a >= b),
        r.0 == (a - b) % 256,
{
    let diff = (a as u16 + 256 - b as u16) % 256;
    (diff as u8, a >= b)
}

/// The interpreter: memory, display, registers, keypad, program counter, index register,
/// call stack and the two timers.
pub struct Chip8 {
    ram: RAM,
    pub display: Display,
    registers: [u8; 16],
    pub keypad: Keypad,
    program_counter: u16,
    index_register: u16,
    stack: ArrayVec<u16, 16>,
    delay_timer: u8,
    sound_timer: u8,
}

impl View for Chip8 {
    type V = MachineState;

    closed spec fn view(&self) -> MachineState {
        MachineState {
            memory: self.ram@,
            pixels: self.display@,
            registers: self.registers@,
            keys: self.keypad@,
            pc: self.program_counter,
            index: self.index_register,
            stack: stack_contents(self.stack),
            delay: self.delay_timer,
            sound: self.sound_timer,
        }
    }
}

impl Default for Chip8 {
    fn default() -> (r: Chip8)
        ensures
            r@ == (MachineState { pc: 0, memory: zeros(4096), ..reset_state() }),
    {
        Chip8::new()
    }
}

impl Chip8 {
    /// A machine with every byte, register, pixel, key and timer zeroed and an empty stack.
    pub fn new() -> (r: Chip8)
        ensures
            r@ == (MachineState { pc: 0, memory: zeros(4096), ..reset_state() }),
    {
        let r = Chip8 {
            ram: RAM::new(),
            display: Display::new(),
            registers: [0u8; 16],
            keypad: Keypad::new(),
            program_counter: 0,
            index_register: 0,
            stack: stack_new(),
            delay_timer: 0,
            sound_timer: 0,
        };
        assert(r.registers@ =~= zeros(16));
        r
    }

    pub fn program_counter(&self) -> (r: u16)
        ensures
            r == self@.pc,
    {
        self.program_counter
    }

    pub fn index_register(&self) -> (r: u16)
        ensures
            r == self@.index,
    {
        self.index_register
    }

    pub fn register(&self, i: usize) -> (r: u8)
        requires
            i < 16,
        ensures
            r == self@.registers[i as int],
    {
        self.registers[i]
    }

    pub fn ram(&self) -> (r: &RAM)
        ensures
            r@ == self@.memory,
    {
        &self.ram
    }

    /// Number of return addresses on the call stack.
    pub fn stack_depth(&self) -> (r: usize)
        ensures
            r == self@.stack.len(),
    {
        stack_len(&self.stack)
    }

    pub fn delay_timer(&self) -> (r: u8)
        ensures
            r == self@.delay,
    {
        self.delay_timer
    }

    pub fn sound_timer(&self) -> (r: u8)
        ensures
            r == self@.sound,
    {
        self.sound_timer
    }

    /// Every machine state has the fixed sizes.
    pub proof fn lemma_wf(&self)
        ensures
            state_wf(self@),
    {
        self.ram.lemma_size();
        self.display.lemma_size();
    }

    /// Zeroes the whole machine, installs the glyphs at address 0 and points the program
    /// counter at the program area.
    pub fn reset(&mut self)
        ensures
            final(self)@ == reset_state(),
    {
        self.ram.reset();
        self.ram.write(0, FONT_SET.as_slice());
        self.display.reset();
        self.registers = [0u8; 16];
        assert(self.registers@ =~= zeros(16));
        self.keypad.reset();
        self.program_counter = PROGRAM_START;
        self.index_register = 0;
        stack_clear(&mut self.stack);
        self.delay_timer = 0;
        self.sound_timer = 0;
        assert(self.ram@ =~= reset_memory());
    }

    /// Resets the machine and copies `program` into memory at the program area; a program
    /// that does not fit there is refused and the machine is left untouched.
    pub fn load_game(&mut self, program: &[u8]) -> (r: Result<(), LoadError>)
        ensures
            program@.len() <= 4096 - 0x200 ==> r is Ok && final(self)@ == (MachineState {
                memory: reset_memory().subrange(0, 0x200) + program@ + reset_memory().subrange(
                    0x200 + program@.len() as int,
                    4096,
                ),
                ..reset_state()
            }),
            program@.len() > 4096 - 0x200 ==> r == Err::<(), LoadError>(LoadError::ProgramTooLarge)
                && final(self)@ == old(self)@,
    {
        if program.len() > 4096 - 0x200 {
            return Err(LoadError::ProgramTooLarge);
        }
        self.reset();
        self.ram.write(PROGRAM_START, program);
        Ok(())
    }

    /// Counts both timers down by one, stopping at zero.
    pub fn decrement_timers(&mut self)
        ensures
            final(self)@ == (MachineState {
                delay: if old(self)@.delay > 0 { (old(self)@.delay - 1) as u8 } else { 0 },
                sound: if old(self)@.sound > 0 { (old(self)@.sound - 1) as u8 } else { 0 },
                ..old(self)@
            }),
    {
        if self.delay_timer > 0 {
            self.delay_timer -= 1;
        }
        if self.sound_timer > 0 {
            self.sound_timer -= 1;
        }
    }

    /// Fetches the instruction at the program counter and executes it. A random byte is
    /// drawn only for the instruction that needs one; every other cycle is fully determined.
    pub fn step(&mut self) -> (r: Result<(), Fault>)
        ensures
            exists|rnd: u8| outcome(step_spec(old(self)@, rnd), r, old(self)@, final(self)@),
            !draws_random(old(self)@) ==> outcome(step_spec(old(self)@, 0), r, old(self)@, final(self)@),
    {
        if self.program_counter >= 4095 {
            return Err(Fault::AddressOutOfRange);
        }
        let op = self.ram.read16(self.program_counter);
        let rnd = match Instruction::decode(op) {
            Some(Instruction::Random { .. }) => random_byte(),
            _ => 0,
        };
        let r = self.process_op(op, rnd);
        assert(outcome(step_spec(old(self)@, rnd), r, old(self)@, self@));
        r
    }

    /// Executes the instruction word `op` as if fetched at the program counter, with
    /// `random_byte` as the value that a random instruction draws.
    pub fn process_op(&mut self, op: u16, random_byte: u8) -> (r: Result<(), Fault>)
        ensures
            outcome(process_spec(old(self)@, op, random_byte), r, old(self)@, final(self)@),
    {
        if self.program_counter >= 4095 {
            return Err(Fault::AddressOutOfRange);
        }
        match Instruction::decode(op) {
            None => Err(Fault::UnsupportedOpcode(op)),
            Some(ins) => self.execute(ins, random_byte),
        }
    }

    fn execute(&mut self, ins: Instruction, rnd: u8) -> (r: Result<(), Fault>)
        requires
            pc_valid(old(self)@),
            operands_valid(ins),
        ensures
            outcome(execute_spec(old(self)@, ins, rnd), r, old(self)@, final(self)@),
    {
        proof {
            self.lemma_wf();
        }
        let next = self.program_counter + 2;
        match ins {
            Instruction::Clear => {
                self.display.clear();
                self.program_counter = next;
            },
            Instruction::Return => {
                match stack_pop(&mut self.stack) {
                    None => {
                        return Err(Fault::StackUnderflow);
                    },
                    Some(addr) => {
                        self.program_counter = addr;
                    },
                }
            },
            Instruction::Jump { nnn } => {
                self.program_counter = nnn;
            },
            Instruction::Call { nnn } => {
                if !stack_try_push(&mut self.stack, next) {
                    return Err(Fault::StackOverflow);
                }
                self.program_counter = nnn;
            },
            Instruction::SkipEqByte { x, kk } => {
                self.program_counter = if self.registers[x] == kk { next + 2 } else { next };
            },
            Instruction::SkipNeByte { x, kk } => {
                self.program_counter = if self.registers[x] != kk { next + 2 } else { next };
            },
            Instruction::SkipEqReg { x, y } => {
                self.program_counter = if self.registers[x] == self.registers[y] {
                    next + 2
                } else {
                    next
                };
            },
            Instruction::SkipNeReg { x, y } => {
                self.program_counter = if self.registers[x] != self.registers[y] {
                    next + 2
                } else {
                    next
                };
            },
            Instruction::LoadIndex { nnn } => {
                self.index_register = nnn;
                self.program_counter = next;
            },
            Instruction::JumpOffset { nnn } => {
                self.program_counter = nnn + self.registers[0] as u16;
            },
            _ => {
                return self.execute_data(ins, rnd);
            },
        }
        Ok(())
    }

    /// Sets register `x` to `v` after setting the flag register to `flag`.
    fn set_with_flag(&mut self, x: usize, v: u8, flag: u8)
        requires
            x < 16,
        ensures
            final(self)@ == with_flag(old(self)@, x as int, v, flag),
    {
        self.registers[15] = flag;
        self.registers[x] = v;
    }

    fn execute_data(&mut self, ins: Instruction, rnd: u8) -> (r: Result<(), Fault>)
        requires
            pc_valid(old(self)@),
            operands_valid(ins),
            !(ins is Clear || ins is Return || ins is Jump || ins is Call || ins is SkipEqByte
                || ins is SkipNeByte || ins is SkipEqReg || ins is SkipNeReg || ins is LoadIndex
                || ins is JumpOffset),
        ensures
            outcome(execute_spec(old(self)@, ins, rnd), r, old(self)@, final(self)@),
    {
        proof {
            self.lemma_wf();
        }
        let next = self.program_counter + 2;
        match ins {
            Instruction::LoadByte { x, kk } => {
                self.registers[x] = kk;
            },
            Instruction::AddByte { x, kk } => {
                let (v, _) = add_with_carry(self.registers[x], kk);
                self.registers[x] = v;
            },
            Instruction::LoadReg { x, y } => {
                self.registers[x] = self.registers[y];
            },
            Instruction::Or { x, y } => {
                self.registers[x] = self.registers[x] | self.registers[y];
            },
            Instruction::And { x, y } => {
                self.registers[x] = self.registers[x] & self.registers[y];
            },
            Instruction::Xor { x, y } => {
                self.registers[x] = self.registers[x] ^ self.registers[y];
            },
            Instruction::AddReg { x, y } => {
                let (v, carry) = add_with_carry(self.registers[x], self.registers[y]);
                self.set_with_flag(x, v, if carry { 1 } else { 0 });
            },
            Instruction::SubReg { x, y } => {
                let (v, no_borrow) = sub_without_borrow(self.registers[x], self.registers[y]);
                self.set_with_flag(x, v, if no_borrow { 1 } else { 0 });
            },
            Instruction::ShiftRight { x } => {
                let a = self.registers[x];
                self.set_with_flag(x, a / 2, a % 2);
            },
            Instruction::SubNeg { x, y } => {
                let (v, no_borrow) = sub_without_borrow(self.registers[y], self.registers[x]);
                self.set_with_flag(x, v, if no_borrow { 1 } else { 0 });
            },
            Instruction::ShiftLeft { x } => {
                let a = self.registers[x];
                let high = if a >= 128 { 128 } else { 0 };
                self.set_with_flag(x, ((a as u16 * 2) % 256) as u8, high);
            },
            Instruction::Random { x, kk } => {
                self.registers[x] = rnd & kk;
            },
            Instruction::SkipKeyDown { x } => {
                let key = self.registers[x];
                if key >= 16 {
                    return Err(Fault::KeyOutOfRange);
                }
                if self.keypad.is_key_down(key as usize) {
                    self.program_counter = next + 2;
                    return Ok(());
                }
            },
            Instruction::SkipKeyUp { x } => {
                let key = self.registers[x];
                if key >= 16 {
                    return Err(Fault::KeyOutOfRange);
                }
                if self.keypad.is_key_up(key as usize) {
                    self.program_counter = next + 2;
                    return Ok(());
                }
            },
            Instruction::LoadDelay { x } => {
                self.registers[x] = self.delay_timer;
            },
            Instruction::SetDelay { x } => {
                self.delay_timer = self.registers[x];
            },
            Instruction::SetSound { x } => {
                self.sound_timer = self.registers[x];
            },
            Instruction::AddIndex { x } => {
                let sum = self.index_register as u32 + self.registers[x] as u32;
                if sum > 0xFFFF {
                    return Err(Fault::IndexOverflow);
                }
                self.index_register = sum as u16;
            },
            Instruction::LoadGlyph { x } => {
                self.index_register = self.registers[x] as u16 * 5;
            },
            _ => {
                return self.execute_memory(ins);
            },
        }
        self.program_counter = next;
        Ok(())
    }

    fn execute_memory(&mut self, ins: Instruction) -> (r: Result<(), Fault>)
        requires
            pc_valid(old(self)@),
            operands_valid(ins),
            ins is Draw || ins is WaitKey || ins is StoreBcd || ins is StoreRegs || ins is LoadRegs,
        ensures
            forall|rnd: u8| outcome(execute_spec(old(self)@, ins, rnd), r, old(self)@, final(self)@),
    {
        proof {
            self.lemma_wf();
        }
        let next = self.program_counter + 2;
        let index = self.index_register;
        match ins {
            Instruction::Draw { x, y, n } => {
                if index as u32 + n as u32 > 4096 {
                    return Err(Fault::AddressOutOfRange);
                }
                let mut sprite: Vec<u8> = Vec::new();
                let mut j: u16 = 0;
                while j < n as u16
                    invariant
                        n < 16,
                        index + n <= 4096,
                        j <= n,
                        self.ram@.len() == 4096,
                        sprite@ =~= self.ram@.subrange(index as int, index + j),
                    decreases n - j,
                {
                    sprite.push(self.ram.read8(index + j));
                    j = j + 1;
                }
                let collided = self.display.draw(
                    self.registers[x] as usize,
                    self.registers[y] as usize,
                    sprite.as_slice(),
                );
                self.registers[15] = match collided {
                    DrawResult::Overwrite => 1,
                    DrawResult::NoOverwrite => 0,
                };
            },
            Instruction::WaitKey { x } => {
                let ghost s0 = self@;
                let mut k: usize = 0;
                while k < 16
                    invariant
                        x < 16,
                        ins == (Instruction::WaitKey { x }),
                        s0 == old(self)@,
                        self@ == s0,
                        next == s0.pc + 2,
                        k <= 16,
                        self.keypad@.len() == 16,
                        first_down(self.keypad@, 0) == first_down(self.keypad@, k as int),
                    decreases 16 - k,
                {
                    if self.keypad.is_key_down(k) {
                        assert(first_down(s0.keys, k as int) == Some(k as int));
                        self.registers[x] = k as u8;
                        self.program_counter = next;
                        return Ok(());
                    }
                    k = k + 1;
                }
                return Ok(());
            },
            Instruction::StoreBcd { x } => {
                if index as u32 + 3 > 4096 {
                    return Err(Fault::AddressOutOfRange);
                }
                let d = self.registers[x];
                self.ram.write8(index, d / 100);
                self.ram.write8(index + 1, (d / 10) % 10);
                self.ram.write8(index + 2, d % 10);
            },
            Instruction::StoreRegs { x } => {
                if index as u32 + x as u32 + 1 > 4096 {
                    return Err(Fault::AddressOutOfRange);
                }
                let ghost before = self.ram@;
                let ghost s0 = self@;
                let mut i: usize = 0;
                while i <= x
                    invariant
                        x < 16,
                        s0 == old(self)@,
                        index == s0.index,
                        next == s0.pc + 2,
                        self@ == (MachineState { memory: self@.memory, ..s0 }),
                        i <= x + 1,
                        index + x + 1 <= 4096,
                        before.len() == 4096,
                        self.ram@.len() == 4096,
                        forall|j: int| 0 <= j < index ==> self.ram@[j] == before[j],
                        forall|j: int| index + i <= j < 4096 ==> self.ram@[j] == before[j],
                        forall|j: int| 0 <= j < i ==> self.ram@[index + j] == self.registers@[j],
                    decreases x + 1 - i,
                {
                    self.ram.write8(index + i as u16, self.registers[i]);
                    i = i + 1;
                }
                assert(self.ram@ =~= before.subrange(0, index as int) + self.registers@.subrange(
                    0,
                    x + 1,
                ) + before.subrange(index + x + 1, 4096));
            },
            Instruction::LoadRegs { x } => {
                if index as u32 + x as u32 + 1 > 4096 {
                    return Err(Fault::AddressOutOfRange);
                }
                let ghost before = self.registers@;
                let ghost s0 = self@;
                let mut i: usize = 0;
                while i <= x
                    invariant
                        x < 16,
                        before.len() == 16,
                        s0 == old(self)@,
                        index == s0.index,
                        next == s0.pc + 2,
                        self@ == (MachineState { registers: self@.registers, ..s0 }),
                        i <= x + 1,
                        index + x + 1 <= 4096,
                        self.ram@.len() == 4096,
                        forall|j: int| i <= j < 16 ==> self.registers@[j] == before[j],
                        forall|j: int| 0 <= j < i ==> self.registers@[j] == self.ram@[index + j],
                    decreases x + 1 - i,
                {
                    self.registers[i] = self.ram.read8(index + i as u16);
                    i = i + 1;
                }
                assert(self.registers@ =~= self.ram@.subrange(index as int, index + x + 1)
                    + before.subrange(x + 1, 16));
            },
            _ => {},
        }
        self.program_counter = next;
        Ok(())
    }
}

/// No key at or above `i` is down.
proof fn lemma_first_down_none(keys: Seq<KeyState>, i: int)
    requires
        0 <= i <= 16,
        forall|j: int| i <= j < 16 ==> keys[j] != KeyState::Down,
    ensures
        first_down(keys, i) is None,
    decreases 16 - i,
{
    if i < 16 {
        lemma_first_down_none(keys, i + 1);
    }
}

/// Key `k` is the lowest key at or above `i` that is down.
proof fn lemma_first_down_some(keys: Seq<KeyState>, i: int, k: int)
    requires
        0 <= i <= k < 16,
        keys[k] == KeyState::Down,
        forall|j: int| i <= j < k ==> keys[j] != KeyState::Down,
    ensures
        first_down(keys, i) == Some(k),
    decreases k - i,
{
    if i < k {
        lemma_first_down_some(keys, i + 1, k);
    }
}

/// The fields that decoding reads back out of a word assembled from four nibbles.
proof fn lemma_nibbles(n0: int, n1: int, n2: int, n3: int)
    requires
        0 <= n0 < 16,
        0 <= n1 < 16,
        0 <= n2 < 16,
        0 <= n3 < 16,
    ensures
        ({
            let op = n0 * 4096 + n1 * 256 + n2 * 16 + n3;
            &&& op / 4096 == n0
            &&& (op / 256) % 16 == n1
            &&& (op / 16) % 16 == n2
            &&& op % 16 == n3
            &&& op % 256 == n2 * 16 + n3
            &&& op % 4096 == n1 * 256 + n2 * 16 + n3
        }),
{
    let op = n0 * 4096 + n1 * 256 + n2 * 16 + n3;
    lemma_fundamental_div_mod_converse(op, 4096, n0, n1 * 256 + n2 * 16 + n3);
    lemma_fundamental_div_mod_converse(op, 256, n0 * 16 + n1, n2 * 16 + n3);
    lemma_fundamental_div_mod_converse(n0 * 16 + n1, 16, n0, n1);
    lemma_fundamental_div_mod_converse(op, 16, n0 * 256 + n1 * 16 + n2, n3);
    lemma_fundamental_div_mod_converse(n0 * 256 + n1 * 16 + n2, 16, n0 * 16 + n1, n2);
}

/// Adding register `y` into register `x` (8xy4) leaves the sum modulo 256 in `x`; unless
/// `x` is the flag register itself, which receives the sum, the flag is 1 exactly when the
/// sum reaches 256.
pub proof fn lemma_add_sets_carry(s: MachineState, x: u16, y: u16, rnd: u8)
    requires
        state_wf(s),
        pc_valid(s),
        x < 16,
        y < 16,
    ensures
        ({
            let a = s.registers[x as int];
            let b = s.registers[y as int];
            let res = process_spec(s, (0x8004 + x * 256 + y * 16) as u16, rnd);
            &&& res is Ok
            &&& res->Ok_0.registers[x as int] == (a + b) % 256
            &&& x != 15 ==> (res->Ok_0.registers[15] == 1 <==> a + b >= 256)
            &&& x != 15 ==> (res->Ok_0.registers[15] == 0 <==> a + b < 256)
        }),
{
    let op = (0x8004 + x * 256 + y * 16) as u16;
    lemma_nibbles(8, x as int, y as int, 4);
    assert(decode_spec(op) == Some(Instruction::AddReg { x: x as usize, y: y as usize }));
}

/// Subtracting register `y` from register `x` (8xy5) leaves the difference modulo 256 in
/// `x`; unless `x` is the flag register itself, which receives the difference, the flag is
/// 1 exactly when no borrow occurred, that is when `x` held at least as much as `y`.
pub proof fn lemma_sub_sets_no_borrow(s: MachineState, x: u16, y: u16, rnd: u8)
    requires
        state_wf(s),
        pc_valid(s),
        x < 16,
        y < 16,
    ensures
        ({
            let a = s.registers[x as int];
            let b = s.registers[y as int];
            let res = process_spec(s, (0x8005 + x * 256 + y * 16) as u16, rnd);
            &&& res is Ok
            &&& res->Ok_0.registers[x as int] == (a - b) % 256
            &&& x != 15 ==> (res->Ok_0.registers[15] == 1 <==> a >= b)
            &&& x != 15 ==> (res->Ok_0.registers[15] == 0 <==> a < b)
        }),
{
    let op = (0x8005 + x * 256 + y * 16) as u16;
    lemma_nibbles(8, x as int, y as int, 5);
    assert(decode_spec(op) == Some(Instruction::SubReg { x: x as usize, y: y as usize }));
}

/// After a reset the first 80 bytes of memory hold the glyphs, the program counter is at
/// the program area and the call stack is empty.
pub proof fn lemma_reset_glyphs()
    ensures
        reset_state().memory.subrange(0, 80) == FONT_SET@,
        reset_state().pc == 0x200,
        reset_state().stack.len() == 0,
{
    assert(reset_state().memory.subrange(0, 80) =~= FONT_SET@);
}

/// A return (00EE) with an empty call stack is a fatal fault.
pub proof fn lemma_return_on_empty_stack(s: MachineState, rnd: u8)
    requires
        pc_valid(s),
        s.stack.len() == 0,
    ensures
        process_spec(s, 0x00EE, rnd) == Err::<MachineState, Fault>(Fault::StackUnderflow),
{
}

/// Waiting for a key (Fx0A) leaves the machine as it was, program counter included, while
/// no key is down; once one is, the lowest key that is down is stored in `x` and the
/// program counter moves on by one instruction.
pub proof fn lemma_wait_for_key(s: MachineState, x: u16, rnd: u8)
    requires
        state_wf(s),
        pc_valid(s),
        x < 16,
    ensures
        (forall|k: int| 0 <= k < 16 ==> s.keys[k] != KeyState::Down) ==> process_spec(
            s,
            (0xF00A + x * 256) as u16,
            rnd,
        ) == Ok::<MachineState, Fault>(s),
        forall|k: int|
            0 <= k < 16 && (#[trigger] s.keys[k]) == KeyState::Down && (forall|j: int|
                0 <= j < k ==> s.keys[j] != KeyState::Down) ==> process_spec(
                s,
                (0xF00A + x * 256) as u16,
                rnd,
            ) == Ok::<MachineState, Fault>(with_reg(advanced(s), x as int, k as u8)),
{
    let op = (0xF00A + x * 256) as u16;
    lemma_nibbles(0xF, x as int, 0, 0xA);
    assert(decode_spec(op) == Some(Instruction::WaitKey { x: x as usize }));
    if forall|k: int| 0 <= k < 16 ==> s.keys[k] != KeyState::Down {
        lemma_first_down_none(s.keys, 0);
    }
    assert forall|k: int|
        0 <= k < 16 && (#[trigger] s.keys[k]) == KeyState::Down && (forall|j: int|
            0 <= j < k ==> s.keys[j] != KeyState::Down) implies process_spec(s, op, rnd)
            == Ok::<MachineState, Fault>(with_reg(advanced(s), x as int, k as u8)) by {
        lemma_first_down_some(s.keys, 0, k);
    }
}

} // verus!
