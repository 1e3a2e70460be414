use vstd::prelude::*;

use rand::Rng;

use crate::decode::{decode, decode_spec, Decoded};
use crate::display::{
    blank, collides, drawn, lemma_draw_next_row, lemma_draw_twice_restores, Display, PIXELS,
};
use crate::error::Chip8Error;
use crate::memory::{loaded, Memory, MAX_PROGRAM, RAM_SIZE, STACK_DEPTH};

verus! {

/// The whole machine state, as mathematical values.
pub struct MachineView {
    pub ram: Seq<u8>,
    pub v: Seq<u8>,
    pub i: u16,
    pub dt: u8,
    pub st: u8,
    pub pc: u16,
    pub sp: u8,
    pub stack: Seq<u16>,
    pub screen: Seq<bool>,
}

/// What one cycle led to.
#[derive(Debug, Clone, Copy, PartialEq, Eq, Structural)]
pub enum Step {
    /// The instruction at the program counter jumps to itself: the program
    /// has ended.
    Halted,
    /// An instruction was executed; `redraw` tells whether it changed the
    /// display.
    Running { redraw: bool },
}

/// Moves the program counter to `target`, which must lie in the address space.
pub open spec fn goto(m: MachineView, target: int, redraw: bool) -> Result<
    (MachineView, bool),
    Chip8Error,
> {
    if 0 <= target < RAM_SIZE {
        Ok((MachineView { pc: target as u16, ..m }, redraw))
    } else {
        Err(Chip8Error::OutOfBoundsAccess)
    }
}

/// Skips the next instruction when `cond` holds.
pub open spec fn skip_if(m: MachineView, cond: bool) -> Result<(MachineView, bool), Chip8Error> {
    goto(m, m.pc + if cond { 4int } else { 2int }, false)
}

/// Sets register `x` and moves on.
pub open spec fn set_reg(m: MachineView, x: int, val: u8) -> Result<(MachineView, bool), Chip8Error> {
    goto(MachineView { v: m.v.update(x, val), ..m }, m.pc + 2, false)
}

/// Sets the flag register VF, then register `x`, and moves on.
pub open spec fn set_reg_flag(m: MachineView, x: int, val: u8, flag: u8) -> Result<
    (MachineView, bool),
    Chip8Error,
> {
    goto(MachineView { v: m.v.update(15, flag).update(x, val), ..m }, m.pc + 2, false)
}

/// The effect of the register-to-register instructions `8xyn`.
pub open spec fn alu(m: MachineView, w: u16, x: int, vx: u8, vy: u8, n: u8) -> Result<
    (MachineView, bool),
    Chip8Error,
> {
    if n == 0 {
        set_reg(m, x, vy)
    } else if n == 1 {
        set_reg(m, x, vx | vy)
    } else if n == 2 {
        set_reg(m, x, vx & vy)
    } else if n == 3 {
        set_reg(m, x, vx ^ vy)
    } else if n == 4 {
        set_reg_flag(m, x, ((vx + vy) % 256) as u8, if vx + vy > 255 { 1 } else { 0 })
    } else if n == 5 {
        set_reg_flag(m, x, ((vx - vy) % 256) as u8, if vx >= vy { 1 } else { 0 })
    } else if n == 6 {
        set_reg_flag(m, x, vx >> 1u8, vx & 1)
    } else if n == 7 {
        set_reg_flag(m, x, ((vy - vx) % 256) as u8, if vy >= vx { 1 } else { 0 })
    } else if n == 0xE {
        set_reg_flag(m, x, vx << 1u8, (vx >> 7u8) & 1)
    } else {
        Err(Chip8Error::UnknownOpcode { instruction: w, pc: m.pc })
    }
}

/// The effect of the `Fxkk` instructions.
pub open spec fn misc(m: MachineView, w: u16, x: int, vx: u8, kk: u8) -> Result<
    (MachineView, bool),
    Chip8Error,
> {
    if kk == 0x07 {
        set_reg(m, x, m.dt)
    } else if kk == 0x0A {
        set_reg(m, x, 0)
    } else if kk == 0x15 {
        goto(MachineView { dt: vx, ..m }, m.pc + 2, false)
    } else if kk == 0x18 {
        goto(MachineView { st: vx, ..m }, m.pc + 2, false)
    } else if kk == 0x1E {
        if m.i + vx < RAM_SIZE {
            goto(MachineView { i: (m.i + vx) as u16, ..m }, m.pc + 2, false)
        } else {
            Err(Chip8Error::OutOfBoundsAccess)
        }
    } else if kk == 0x29 {
        goto(MachineView { i: (vx * 5) as u16, ..m }, m.pc + 2, false)
    } else if kk == 0x33 {
        if m.i + 3 <= RAM_SIZE {
            let ram = m.ram.update(m.i as int, vx / 100).update(m.i + 1, (vx / 10) % 10).update(
                m.i + 2,
                vx % 10,
            );
            goto(MachineView { ram, ..m }, m.pc + 2, false)
        } else {
            Err(Chip8Error::OutOfBoundsAccess)
        }
    } else if kk == 0x55 {
        if m.i + x < RAM_SIZE {
            let ram = Seq::new(
                m.ram.len(),
                |a: int|
                    if m.i <= a <= m.i + x {
                        m.v[a - m.i]
                    } else {
                        m.ram[a]
                    },
            );
            goto(MachineView { ram, ..m }, m.pc + 2, false)
        } else {
            Err(Chip8Error::OutOfBoundsAccess)
        }
    } else if kk == 0x65 {
        if m.i + x < RAM_SIZE {
            let v = Seq::new(
                m.v.len(),
                |k: int|
                    if k <= x {
                        m.ram[m.i + k]
                    } else {
                        m.v[k]
                    },
            );
            goto(MachineView { v, ..m }, m.pc + 2, false)
        } else {
            Err(Chip8Error::OutOfBoundsAccess)
        }
    } else {
        Err(Chip8Error::UnknownOpcode { instruction: w, pc: m.pc })
    }
}

/// The effect of executing instruction `w` on `m`: the new state and
/// whether the display changed, or the fault. `rnd` is the random byte
/// that `Cxkk` masks.
pub open spec fn next(m: MachineView, w: u16, rnd: u8) -> Result<(MachineView, bool), Chip8Error> {
    let d = decode_spec(w);
    let x = d.x as int;
    let vx = m.v[x];
    let vy = m.v[d.y as int];
    let unknown = Err(Chip8Error::UnknownOpcode { instruction: w, pc: m.pc });
    if d.family == 0x0 {
        if w == 0x00E0 {
            goto(MachineView { screen: blank(), ..m }, m.pc + 2, true)
        } else if w == 0x00EE {
            if m.sp == 0 {
                Err(Chip8Error::StackUnderflow)
            } else {
                goto(
                    MachineView { sp: (m.sp - 1) as u8, ..m },
                    m.stack[m.sp - 1] + 2,
                    false,
                )
            }
        } else {
            unknown
        }
    } else if d.family == 0x1 {
        goto(m, d.nnn as int, false)
    } else if d.family == 0x2 {
        if m.sp >= STACK_DEPTH {
            Err(Chip8Error::StackOverflow)
        } else {
            goto(
                MachineView { stack: m.stack.update(m.sp as int, m.pc), sp: (m.sp + 1) as u8, ..m },
                d.nnn as int,
                false,
            )
        }
    } else if d.family == 0x3 {
        skip_if(m, vx == d.kk)
    } else if d.family == 0x4 {
        skip_if(m, vx != d.kk)
    } else if d.family == 0x5 {
        if d.n == 0 {
            skip_if(m, vx == vy)
        } else {
            unknown
        }
    } else if d.family == 0x6 {
        set_reg(m, x, d.kk)
    } else if d.family == 0x7 {
        set_reg(m, x, ((vx + d.kk) % 256) as u8)
    } else if d.family == 0x8 {
        alu(m, w, x, vx, vy, d.n)
    } else if d.family == 0x9 {
        if d.n == 0 {
            skip_if(m, vx != vy)
        } else {
            unknown
        }
    } else if d.family == 0xA {
        goto(MachineView { i: d.nnn, ..m }, m.pc + 2, false)
    } else if d.family == 0xB {
        goto(m, d.nnn + m.v[0], false)
    } else if d.family == 0xC {
        set_reg(m, x, rnd & d.kk)
    } else if d.family == 0xD {
        if m.i + d.n <= RAM_SIZE {
            let rows = m.ram.subrange(m.i as int, m.i + d.n);
            let flag: u8 = if collides(m.screen, rows, vx, vy) { 1 } else { 0 };
            goto(
                MachineView { screen: drawn(m.screen, rows, vx, vy), v: m.v.update(15, flag), ..m },
                m.pc + 2,
                true,
            )
        } else {
            Err(Chip8Error::OutOfBoundsAccess)
        }
    } else if d.family == 0xE {
        if d.kk == 0x9E || d.kk == 0xA1 {
            goto(m, m.pc + 2, false)
        } else {
            unknown
        }
    } else {
        misc(m, w, x, vx, d.kk)
    }
}

impl MachineView {
    /// Sizes are fixed and every address held lies in the address space.
    pub open spec fn wf(&self) -> bool {
        &&& self.ram.len() == RAM_SIZE
        &&& self.v.len() == 16
        &&& self.stack.len() == STACK_DEPTH
        &&& self.sp <= STACK_DEPTH
        &&& self.i < RAM_SIZE
        &&& self.pc < RAM_SIZE
        &&& forall|k: int| 0 <= k < STACK_DEPTH ==> #[trigger] self.stack[k] < RAM_SIZE
        &&& self.screen.len() == PIXELS
    }
}

/// The state after a call that was to have the effect `expected`, given
/// that it returned `r`: on success the new state, on a fault the old one.
pub open spec fn outcome(
    pre: MachineView,
    post: MachineView,
    r: Result<bool, Chip8Error>,
    expected: Result<(MachineView, bool), Chip8Error>,
) -> bool {
    match expected {
        Ok((m, redraw)) => r == Ok::<bool, Chip8Error>(redraw) && post == m,
        Err(e) => r == Err::<bool, Chip8Error>(e) && post == pre,
    }
}

/// Whether `w` is a jump to `pc` itself, the conventional end of a program.
pub open spec fn is_self_jump(w: u16, pc: u16) -> bool {
    decode_spec(w).family == 0x1 && decode_spec(w).nnn == pc
}

/// One cycle on `m`: fetch the instruction at the program counter, stop
/// at a jump to itself, else execute it. `rnd` is the byte that `Cxkk` masks.
pub open spec fn cycle(m: MachineView, rnd: u8) -> Result<(MachineView, Step), Chip8Error> {
    if m.pc + 1 >= RAM_SIZE {
        Err(Chip8Error::OutOfBoundsAccess)
    } else if is_self_jump(fetch(m), m.pc) {
        Ok((m, Step::Halted))
    } else {
        match next(m, fetch(m), rnd) {
            Ok((m2, redraw)) => Ok((m2, Step::Running { redraw })),
            Err(e) => Err(e),
        }
    }
}

/// As `outcome`, for a whole cycle.
pub open spec fn cycle_outcome(
    pre: MachineView,
    post: MachineView,
    r: Result<Step, Chip8Error>,
    expected: Result<(MachineView, Step), Chip8Error>,
) -> bool {
    match expected {
        Ok((m, s)) => r == Ok::<Step, Chip8Error>(s) && post == m,
        Err(e) => r == Err::<Step, Chip8Error>(e) && post == pre,
    }
}

/// Relies on rand's `thread_rng().gen::<u8>()` for a byte from the
/// thread-local generator; nothing is assumed of its value.
#[verifier::external_body]
fn random_byte() -> u8 {
    rand::thread_rng().gen::<u8>()
}

/// The registers after a step that was to produce `r`; empty on a fault.
pub open spec fn regs_of(r: Result<(MachineView, bool), Chip8Error>) -> Seq<u8> {
    match r {
        Ok((m, _)) => m.v,
        Err(_) => Seq::empty(),
    }
}

/// The instruction `8xyn`.
pub open spec fn alu_instruction(x: u8, y: u8, n: u8) -> u16 {
    (0x8000 + x * 256 + y * 16 + n) as u16
}

proof fn lemma_decode_alu(x: u8, y: u8, n: u8)
    requires
        x < 16,
        y < 16,
        n < 16,
    ensures
        decode_spec(alu_instruction(x, y, n)).family == 8,
        decode_spec(alu_instruction(x, y, n)).x == x,
        decode_spec(alu_instruction(x, y, n)).y == y,
        decode_spec(alu_instruction(x, y, n)).n == n,
{
}

/// Register arithmetic wraps modulo 256, and the flag register VF gets the
/// carry of an addition, 1 when a subtraction does not borrow, and the bit
/// shifted out by a shift. Here `x` is not VF, so the result survives.
pub proof fn lemma_register_arithmetic(m: MachineView, x: u8, y: u8, rnd: u8)
    requires
        m.wf(),
        x < 15,
        y < 16,
        m.pc + 2 < RAM_SIZE,
    ensures
        ({
            let vx = m.v[x as int];
            let vy = m.v[y as int];
            let add = regs_of(next(m, alu_instruction(x, y, 4), rnd));
            let sub = regs_of(next(m, alu_instruction(x, y, 5), rnd));
            let shr = regs_of(next(m, alu_instruction(x, y, 6), rnd));
            let subn = regs_of(next(m, alu_instruction(x, y, 7), rnd));
            let shl = regs_of(next(m, alu_instruction(x, y, 0xE), rnd));
            &&& add[x as int] == (vx + vy) % 256
            &&& add[15] == if vx + vy >= 256 { 1int } else { 0int }
            &&& sub[x as int] == (vx - vy) % 256
            &&& sub[15] == if vx >= vy { 1int } else { 0int }
            &&& shr[x as int] == vx / 2
            &&& shr[15] == vx % 2
            &&& subn[x as int] == (vy - vx) % 256
            &&& subn[15] == if vy >= vx { 1int } else { 0int }
            &&& shl[x as int] == (vx * 2) % 256
            &&& shl[15] == vx / 128
        }),
{
    lemma_decode_alu(x, y, 4);
    lemma_decode_alu(x, y, 5);
    lemma_decode_alu(x, y, 6);
    lemma_decode_alu(x, y, 7);
    lemma_decode_alu(x, y, 0xE);
    let vx = m.v[x as int];
    assert(vx >> 1u8 == vx / 2) by (bit_vector);
    assert(vx & 1u8 == vx % 2) by (bit_vector);
    assert((vx >> 7u8) & 1u8 == vx / 128) by (bit_vector);
    assert(vx << 1u8 == (vx * 2) % 256) by (bit_vector);
}

/// The instruction `2nnn`.
pub open spec fn call_instruction(nnn: u16) -> u16 {
    (0x2000 + nnn) as u16
}

/// A call pushes the return address while fewer than sixteen are held and
/// fails with `StackOverflow` when sixteen are; a return on an empty stack
/// fails with `StackUnderflow`; a call followed by a return resumes at the
/// instruction after the call with the stack depth restored.
pub proof fn lemma_stack_discipline(m: MachineView, nnn: u16, rnd: u8)
    requires
        m.wf(),
        nnn < RAM_SIZE,
    ensures
        m.sp == STACK_DEPTH ==> next(m, call_instruction(nnn), rnd) == Err::<
            (MachineView, bool),
            Chip8Error,
        >(Chip8Error::StackOverflow),
        m.sp < STACK_DEPTH ==> next(m, call_instruction(nnn), rnd) == Ok::<
            (MachineView, bool),
            Chip8Error,
        >(
            (
                MachineView {
                    stack: m.stack.update(m.sp as int, m.pc),
                    sp: (m.sp + 1) as u8,
                    pc: nnn,
                    ..m
                },
                false,
            ),
        ),
        m.sp == 0 ==> next(m, 0x00EE, rnd) == Err::<(MachineView, bool), Chip8Error>(
            Chip8Error::StackUnderflow,
        ),
        m.sp < STACK_DEPTH && m.pc + 2 < RAM_SIZE ==> match next(m, call_instruction(nnn), rnd) {
            Ok((m1, _)) => next(m1, 0x00EE, rnd) == Ok::<(MachineView, bool), Chip8Error>(
                (MachineView { pc: (m.pc + 2) as u16, stack: m1.stack, ..m }, false),
            ),
            Err(_) => false,
        },
{
    let w = call_instruction(nnn);
    assert(decode_spec(w).family == 2 && decode_spec(w).nnn == nnn);
    assert(decode_spec(0x00EE).family == 0);
}

/// Executing the same sprite instruction `Dxyn` twice in a row leaves the
/// display as it was, when neither coordinate register is the flag
/// register VF that the first draw overwrites.
pub proof fn lemma_draw_twice_restores_display(m: MachineView, w: u16, rnd: u8)
    requires
        m.wf(),
        decode_spec(w).family == 0xD,
        decode_spec(w).x < 15,
        decode_spec(w).y < 15,
        m.i + decode_spec(w).n <= RAM_SIZE,
        m.pc + 4 < RAM_SIZE,
    ensures
        match next(m, w, rnd) {
            Ok((m1, _)) => match next(m1, w, rnd) {
                Ok((m2, _)) => m2.screen == m.screen,
                Err(_) => false,
            },
            Err(_) => false,
        },
{
    let d = decode_spec(w);
    let rows = m.ram.subrange(m.i as int, m.i + d.n);
    lemma_draw_twice_restores(m.screen, rows, m.v[d.x as int], m.v[d.y as int]);
}

/// The CHIP-8 machine: memory and registers, and the display.
pub struct Chip8 {
    memory: Memory,
    display: Display,
}

impl View for Chip8 {
    type V = MachineView;

    closed spec fn view(&self) -> MachineView {
        MachineView {
            ram: self.memory.ram@,
            v: self.memory.v@,
            i: self.memory.i,
            dt: self.memory.dt,
            st: self.memory.st,
            pc: self.memory.pc,
            sp: self.memory.sp,
            stack: self.memory.stack@,
            screen: self.display@,
        }
    }
}

impl Chip8 {
    pub closed spec fn wf(&self) -> bool {
        self.memory.wf() && self.display.wf()
    }

    /// The state of a well-formed machine is well formed, so the laws on
    /// `next` apply to it.
    pub proof fn lemma_wf_view(&self)
        requires
            self.wf(),
        ensures
            self@.wf(),
    {
        assert forall|k: int| 0 <= k < STACK_DEPTH implies #[trigger] self@.stack[k] < RAM_SIZE by {
            assert(self.memory.stack@[k] < RAM_SIZE);
        }
    }

    /// A machine with zeroed memory, a blank display and the program
    /// counter at the program start.
    pub fn new() -> (r: Chip8)
        ensures
            r.wf(),
            r@.ram == Seq::new(RAM_SIZE as nat, |a: int| 0u8),
            r@.v == Seq::new(16, |k: int| 0u8),
            r@.stack == Seq::new(STACK_DEPTH as nat, |k: int| 0u16),
            r@.i == 0 && r@.dt == 0 && r@.st == 0 && r@.sp == 0,
            r@.pc == 0x200,
            r@.screen == blank(),
    {
        Chip8 { memory: Memory::new(), display: Display::new() }
    }

    /// Loads a program image and the font; an image longer than
    /// `MAX_PROGRAM` bytes is refused with `LoadError` and nothing changes.
    pub fn load(&mut self, rom: &[u8]) -> (r: Result<(), Chip8Error>)
        requires
            old(self).wf(),
        ensures
            final(self).wf(),
            r is Err <==> rom@.len() > MAX_PROGRAM,
            r is Err ==> r == Err::<(), Chip8Error>(Chip8Error::LoadError) && final(self)@ == old(self)@,
            r is Ok ==> final(self)@ == (MachineView { ram: loaded(old(self)@.ram, rom@), ..old(self)@ }),
    {
        self.memory.load(rom)
    }

    /// The memory and registers.
    pub fn memory(&self) -> (r: &Memory)
        requires
            self.wf(),
        ensures
            r.wf(),
            r.ram@ == self@.ram && r.v@ == self@.v && r.stack@ == self@.stack,
            r.i == self@.i && r.dt == self@.dt && r.st == self@.st,
            r.pc == self@.pc && r.sp == self@.sp,
    {
        &self.memory
    }

    /// The display.
    pub fn display(&self) -> (r: &Display)
        requires
            self.wf(),
        ensures
            r.wf(),
            r@ == self@.screen,
    {
        &self.display
    }

    /// Moves the program counter to `target`.
    fn goto(&mut self, target: usize, redraw: bool) -> (r: Result<bool, Chip8Error>)
        requires
            old(self).wf(),
        ensures
            final(self).wf(),
            outcome(old(self)@, final(self)@, r, goto(old(self)@, target as int, redraw)),
    {
        if target >= RAM_SIZE {
            return Err(Chip8Error::OutOfBoundsAccess);
        }
        self.memory.pc = target as u16;
        Ok(redraw)
    }

    /// Skips the next instruction when `cond` holds.
    fn skip_if(&mut self, cond: bool) -> (r: Result<bool, Chip8Error>)
        requires
            old(self).wf(),
        ensures
            final(self).wf(),
            outcome(old(self)@, final(self)@, r, skip_if(old(self)@, cond)),
    {
        let pc = self.memory.pc as usize;
        self.goto(if cond { pc + 4 } else { pc + 2 }, false)
    }

    /// Sets register `x` and moves on.
    fn set_reg(&mut self, x: usize, val: u8) -> (r: Result<bool, Chip8Error>)
        requires
            old(self).wf(),
            x < 16,
        ensures
            final(self).wf(),
            outcome(old(self)@, final(self)@, r, set_reg(old(self)@, x as int, val)),
    {
        let next_pc = self.memory.pc as usize + 2;
        if next_pc >= RAM_SIZE {
            return Err(Chip8Error::OutOfBoundsAccess);
        }
        self.memory.v.set(x, val);
        self.memory.pc = next_pc as u16;
        Ok(false)
    }

    /// Sets the flag register, then register `x`, and moves on.
    fn set_reg_flag(&mut self, x: usize, val: u8, flag: u8) -> (r: Result<bool, Chip8Error>)
        requires
            old(self).wf(),
            x < 16,
        ensures
            final(self).wf(),
            outcome(old(self)@, final(self)@, r, set_reg_flag(old(self)@, x as int, val, flag)),
    {
        let next_pc = self.memory.pc as usize + 2;
        if next_pc >= RAM_SIZE {
            return Err(Chip8Error::OutOfBoundsAccess);
        }
        self.memory.v.set(15, flag);
        self.memory.v.set(x, val);
        self.memory.pc = next_pc as u16;
        Ok(false)
    }

    /// XORs the `nibble` rows at the index register onto the display at
    /// `(vx, vy)` and sets the flag register to 1 if a pixel was turned
    /// off, else to 0.
    fn draw_sprites(&mut self, vx: u8, vy: u8, nibble: u8)
        requires
            old(self).wf(),
            nibble < 16,
            old(self)@.i + nibble <= RAM_SIZE,
        ensures
            final(self).wf(),
            ({
                let m = old(self)@;
                let rows = m.ram.subrange(m.i as int, m.i + nibble);
                final(self)@ == (MachineView {
                    screen: drawn(m.screen, rows, vx, vy),
                    v: m.v.update(15, if collides(m.screen, rows, vx, vy) { 1u8 } else { 0u8 }),
                    ..m
                })
            }),
    {
        let ghost m = self@;
        let ghost rows = m.ram.subrange(m.i as int, m.i + nibble);
        let start = self.memory.i as usize;
        let mut collision = false;
        let mut n: u8 = 0;
        assert(drawn(m.screen, rows.take(0), vx, vy) =~= m.screen);
        while n < nibble
            invariant
                self.wf(),
                n <= nibble < 16,
                start == m.i,
                start + nibble <= RAM_SIZE,
                rows.len() == nibble,
                rows == m.ram.subrange(m.i as int, m.i + nibble),
                self@ == (MachineView { screen: drawn(m.screen, rows.take(n as int), vx, vy), ..m }),
                collision == collides(m.screen, rows.take(n as int), vx, vy),
            decreases nibble - n,
        {
            let byte = self.memory.ram[start + n as usize];
            proof {
                lemma_draw_next_row(m.screen, rows, vx, vy, n as int);
            }
            let hit = self.display.blit_row(vx, vy % 32 + n, byte);
            collision = collision || hit;
            n = n + 1;
        }
        assert(rows.take(nibble as int) =~= rows);
        self.memory.v.set(15, if collision { 1 } else { 0 });
    }

    /// Executes a register-to-register instruction `8xyn`.
    fn alu(&mut self, instruction: u16, x: usize, vx: u8, vy: u8, n: u8) -> (r: Result<
        bool,
        Chip8Error,
    >)
        requires
            old(self).wf(),
            x < 16,
        ensures
            final(self).wf(),
            outcome(old(self)@, final(self)@, r, alu(old(self)@, instruction, x as int, vx, vy, n)),
    {
        match n {
            0x0 => self.set_reg(x, vy),
            0x1 => self.set_reg(x, vx | vy),
            0x2 => self.set_reg(x, vx & vy),
            0x3 => self.set_reg(x, vx ^ vy),
            0x4 => {
                let sum = vx as u16 + vy as u16;
                self.set_reg_flag(x, (sum % 256) as u8, if sum > 255 { 1 } else { 0 })
            },
            0x5 => self.set_reg_flag(x, vx.wrapping_sub(vy), if vx >= vy { 1 } else { 0 }),
            0x6 => self.set_reg_flag(x, vx >> 1, vx & 1),
            0x7 => self.set_reg_flag(x, vy.wrapping_sub(vx), if vy >= vx { 1 } else { 0 }),
            0xE => self.set_reg_flag(x, vx << 1, (vx >> 7) & 1),
            _ => Err(Chip8Error::UnknownOpcode { instruction, pc: self.memory.pc }),
        }
    }

    /// Executes an `Fxkk` instruction.
    fn misc(&mut self, instruction: u16, x: usize, vx: u8, kk: u8) -> (r: Result<bool, Chip8Error>)
        requires
            old(self).wf(),
            x < 16,
        ensures
            final(self).wf(),
            outcome(old(self)@, final(self)@, r, misc(old(self)@, instruction, x as int, vx, kk)),
    {
        let i = self.memory.i as usize;
        let next_pc = self.memory.pc as usize + 2;
        match kk {
            0x07 => {
                let dt = self.memory.dt;
                self.set_reg(x, dt)
            },
            0x0A => self.set_reg(x, 0),
            0x15 => {
                if next_pc >= RAM_SIZE {
                    return Err(Chip8Error::OutOfBoundsAccess);
                }
                self.memory.dt = vx;
                self.goto(next_pc, false)
            },
            0x18 => {
                if next_pc >= RAM_SIZE {
                    return Err(Chip8Error::OutOfBoundsAccess);
                }
                self.memory.st = vx;
                self.goto(next_pc, false)
            },
            0x1E => {
                if i + vx as usize >= RAM_SIZE || next_pc >= RAM_SIZE {
                    return Err(Chip8Error::OutOfBoundsAccess);
                }
                self.memory.i = (i + vx as usize) as u16;
                self.goto(next_pc, false)
            },
            0x29 => {
                if next_pc >= RAM_SIZE {
                    return Err(Chip8Error::OutOfBoundsAccess);
                }
                self.memory.i = vx as u16 * 5;
                self.goto(next_pc, false)
            },
            0x33 => {
                if i + 3 > RAM_SIZE || next_pc >= RAM_SIZE {
                    return Err(Chip8Error::OutOfBoundsAccess);
                }
                self.memory.ram.set(i, vx / 100);
                self.memory.ram.set(i + 1, (vx / 10) % 10);
                self.memory.ram.set(i + 2, vx % 10);
                self.goto(next_pc, false)
            },
            0x55 => {
                if i + x >= RAM_SIZE || next_pc >= RAM_SIZE {
                    return Err(Chip8Error::OutOfBoundsAccess);
                }
                let ghost m = self@;
                let mut k: usize = 0;
                while k <= x
                    invariant
                        self.wf(),
                        k <= x + 1,
                        x < 16,
                        i == m.i,
                        i + x < RAM_SIZE,
                        self@.v == m.v,
                        self@ == (MachineView { ram: self@.ram, ..m }),
                        forall|a: int|
                            0 <= a < RAM_SIZE ==> #[trigger] self@.ram[a] == if i <= a < i + k {
                                m.v[a - i]
                            } else {
                                m.ram[a]
                            },
                    decreases x + 1 - k,
                {
                    let val = self.memory.v[k];
                    self.memory.ram.set(i + k, val);
                    k = k + 1;
                }
                assert(self@.ram =~= Seq::new(
                    m.ram.len(),
                    |a: int|
                        if m.i <= a <= m.i + x {
                            m.v[a - m.i]
                        } else {
                            m.ram[a]
                        },
                ));
                self.goto(next_pc, false)
            },
            0x65 => {
                if i + x >= RAM_SIZE || next_pc >= RAM_SIZE {
                    return Err(Chip8Error::OutOfBoundsAccess);
                }
                let ghost m = self@;
                let mut k: usize = 0;
                while k <= x
                    invariant
                        self.wf(),
                        k <= x + 1,
                        x < 16,
                        i == m.i,
                        i + x < RAM_SIZE,
                        self@.ram == m.ram,
                        self@ == (MachineView { v: self@.v, ..m }),
                        forall|j: int|
                            0 <= j < 16 ==> #[trigger] self@.v[j] == if j < k {
                                m.ram[i + j]
                            } else {
                                m.v[j]
                            },
                    decreases x + 1 - k,
                {
                    let val = self.memory.ram[i + k];
                    self.memory.v.set(k, val);
                    k = k + 1;
                }
                assert(self@.v =~= Seq::new(
                    m.v.len(),
                    |j: int|
                        if j <= x {
                            m.ram[m.i + j]
                        } else {
                            m.v[j]
                        },
                ));
                self.goto(next_pc, false)
            },
            _ => Err(Chip8Error::UnknownOpcode { instruction, pc: self.memory.pc }),
        }
    }

    /// Executes an instruction that clears the display or moves the program
    /// counter other than by one step.
    fn execute_control(&mut self, instruction: u16, random: u8) -> (r: Result<bool, Chip8Error>)
        requires
            old(self).wf(),
            decode_spec(instruction).family == 0x0 || decode_spec(instruction).family == 0x1 || decode_spec(instruction).family == 0x2 || decode_spec(instruction).family == 0x3 || decode_spec(instruction).family == 0x4 || decode_spec(instruction).family == 0x5 || decode_spec(instruction).family == 0x9 || decode_spec(instruction).family == 0xB || decode_spec(instruction).family == 0xE,
        ensures
            final(self).wf(),
            outcome(old(self)@, final(self)@, r, next(old(self)@, instruction, random)),
    {
        let d: Decoded = decode(instruction);
        let pc = self.memory.pc as usize;
        let next_pc = pc + 2;
        let x = d.x as usize;
        let vx = self.memory.v[x];
        let vy = self.memory.v[d.y as usize];
        match d.family {
            0x0 => {
                if instruction == 0x00E0 {
                    if next_pc >= RAM_SIZE {
                        return Err(Chip8Error::OutOfBoundsAccess);
                    }
                    self.display.clear();
                    self.goto(next_pc, true)
                } else if instruction == 0x00EE {
                    if self.memory.sp == 0 {
                        return Err(Chip8Error::StackUnderflow);
                    }
                    let sp = self.memory.sp - 1;
                    let target = self.memory.stack[sp as usize] as usize + 2;
                    if target >= RAM_SIZE {
                        return Err(Chip8Error::OutOfBoundsAccess);
                    }
                    self.memory.sp = sp;
                    self.goto(target, false)
                } else {
                    Err(Chip8Error::UnknownOpcode { instruction, pc: self.memory.pc })
                }
            },
            0x1 => self.goto(d.nnn as usize, false),
            0x2 => {
                if self.memory.sp as usize >= STACK_DEPTH {
                    return Err(Chip8Error::StackOverflow);
                }
                let sp = self.memory.sp;
                self.memory.stack.set(sp as usize, pc as u16);
                self.memory.sp = sp + 1;
                self.goto(d.nnn as usize, false)
            },
            0x3 => self.skip_if(vx == d.kk),
            0x4 => self.skip_if(vx != d.kk),
            0x5 => {
                if d.n == 0 {
                    self.skip_if(vx == vy)
                } else {
                    Err(Chip8Error::UnknownOpcode { instruction, pc: self.memory.pc })
                }
            },
            0x9 => {
                if d.n == 0 {
                    self.skip_if(vx != vy)
                } else {
                    Err(Chip8Error::UnknownOpcode { instruction, pc: self.memory.pc })
                }
            },
            0xB => {
                let v0 = self.memory.v[0];
                self.goto(d.nnn as usize + v0 as usize, false)
            },
            _ => {
                if d.kk == 0x9E || d.kk == 0xA1 {
                    self.goto(next_pc, false)
                } else {
                    Err(Chip8Error::UnknownOpcode { instruction, pc: self.memory.pc })
                }
            },
        }
    }

    /// Executes an instruction that sets registers, memory or pixels and
    /// moves on by one step.
    fn execute_data(&mut self, instruction: u16, random: u8) -> (r: Result<bool, Chip8Error>)
        requires
            old(self).wf(),
            decode_spec(instruction).family == 0x6 || decode_spec(instruction).family == 0x7 || decode_spec(instruction).family == 0x8 || decode_spec(instruction).family == 0xA || decode_spec(instruction).family == 0xC || decode_spec(instruction).family == 0xD || decode_spec(instruction).family == 0xF,
        ensures
            final(self).wf(),
            outcome(old(self)@, final(self)@, r, next(old(self)@, instruction, random)),
    {
        let d: Decoded = decode(instruction);
        let pc = self.memory.pc as usize;
        let next_pc = pc + 2;
        let x = d.x as usize;
        let vx = self.memory.v[x];
        let vy = self.memory.v[d.y as usize];
        match d.family {
            0x6 => self.set_reg(x, d.kk),
            0x7 => self.set_reg(x, vx.wrapping_add(d.kk)),
            0x8 => self.alu(instruction, x, vx, vy, d.n),
            0xA => {
                if next_pc >= RAM_SIZE {
                    return Err(Chip8Error::OutOfBoundsAccess);
                }
                self.memory.i = d.nnn;
                self.goto(next_pc, false)
            },
            0xC => self.set_reg(x, random & d.kk),
            0xD => {
                if self.memory.i as usize + d.n as usize > RAM_SIZE || next_pc >= RAM_SIZE {
                    return Err(Chip8Error::OutOfBoundsAccess);
                }
                self.draw_sprites(vx, vy, d.n);
                self.goto(next_pc, true)
            },
            _ => self.misc(instruction, x, vx, d.kk),
        }
    }

    /// Executes one instruction, program counter update included. `random`
    /// is the byte that `Cxkk` masks with `kk`. Returns whether the display
    /// changed; on a fault the machine is left as it was.
    pub fn execute_intruction(&mut self, instruction: u16, random: u8) -> (r: Result<
        bool,
        Chip8Error,
    >)
        requires
            old(self).wf(),
        ensures
            final(self).wf(),
            outcome(old(self)@, final(self)@, r, next(old(self)@, instruction, random)),
    {
        let d: Decoded = decode(instruction);
        match d.family {
            0x0 | 0x1 | 0x2 | 0x3 | 0x4 | 0x5 | 0x9 | 0xB | 0xE => self.execute_control(
                instruction,
                random,
            ),
            _ => self.execute_data(instruction, random),
        }
    }

    /// Runs one cycle with `random` as the byte that `Cxkk` masks.
    pub fn step_with(&mut self, random: u8) -> (r: Result<Step, Chip8Error>)
        requires
            old(self).wf(),
        ensures
            final(self).wf(),
            cycle_outcome(old(self)@, final(self)@, r, cycle(old(self)@, random)),
    {
        if self.memory.pc as usize + 1 >= RAM_SIZE {
            return Err(Chip8Error::OutOfBoundsAccess);
        }
        let instruction = self.get_next_instruction();
        let d = decode(instruction);
        if d.family == 0x1 && d.nnn == self.memory.pc {
            return Ok(Step::Halted);
        }
        match self.execute_intruction(instruction, random) {
            Ok(redraw) => Ok(Step::Running { redraw }),
            Err(e) => Err(e),
        }
    }

    /// Runs one cycle, drawing a fresh random byte for `Cxkk`.
    pub fn step(&mut self) -> (r: Result<Step, Chip8Error>)
        requires
            old(self).wf(),
        ensures
            final(self).wf(),
            exists|rnd: u8| cycle_outcome(old(self)@, final(self)@, r, #[trigger] cycle(old(self)@, rnd)),
    {
        let random = random_byte();
        self.step_with(random)
    }

    /// The big-endian word at the program counter.
    fn get_next_instruction(&self) -> (w: u16)
        requires
            self.wf(),
            self@.pc + 1 < RAM_SIZE,
        ensures
            w == fetch(self@),
    {
        let b1 = self.memory.ram[self.memory.pc as usize];
        let b2 = self.memory.ram[self.memory.pc as usize + 1];
        (b1 as u16) * 256 + b2 as u16
    }
}

/// The big-endian word at the program counter.
pub open spec fn fetch(m: MachineView) -> u16 {
    (m.ram[m.pc as int] * 256 + m.ram[m.pc + 1]) as u16
}

} // verus!
