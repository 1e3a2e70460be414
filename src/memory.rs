use vstd::prelude::*;

use crate::error::Chip8Error;

verus! {

/// Size of the address space in bytes.
pub const RAM_SIZE: usize = 4096;

/// Address at which programs are loaded.
pub const PROGRAM_START: usize = 0x200;

/// Largest program image that fits.
pub const MAX_PROGRAM: usize = 3584;

/// Size of the built-in font: sixteen glyphs of five bytes.
pub const FONT_SIZE: usize = 80;

/// Depth of the call stack.
pub const STACK_DEPTH: usize = 16;

/// The glyphs of the hexadecimal digits 0 to F, five rows each.
pub open spec fn font() -> Seq<u8> {
    seq![
        0xF0u8, 0x90, 0x90, 0x90, 0xF0,
        0x20, 0x60, 0x20, 0x20, 0x70,
        0xF0, 0x10, 0xF0, 0x80, 0xF0,
        0xF0, 0x10, 0xF0, 0x10, 0xF0,
        0x90, 0x90, 0xF0, 0x10, 0x10,
        0xF0, 0x80, 0xF0, 0x10, 0xF0,
        0xF0, 0x80, 0xF0, 0x90, 0xF0,
        0xF0, 0x10, 0x20, 0x40, 0x40,
        0xF0, 0x90, 0xF0, 0x90, 0xF0,
        0xF0, 0x90, 0xF0, 0x10, 0xF0,
        0xF0, 0x90, 0xF0, 0x90, 0x90,
        0xE0, 0x90, 0xE0, 0x90, 0xE0,
        0xF0, 0x80, 0x80, 0x80, 0xF0,
        0xE0, 0x90, 0x90, 0x90, 0xE0,
        0xF0, 0x80, 0xF0, 0x80, 0xF0,
        0xF0, 0x80, 0xF0, 0x80, 0x80,
    ]
}

/// The address space after loading `rom`: the font at the bottom, the
/// program from `PROGRAM_START` on, everything else as it was.
pub open spec fn loaded(ram: Seq<u8>, rom: Seq<u8>) -> Seq<u8> {
    Seq::new(
        ram.len(),
        |a: int|
            if a < FONT_SIZE {
                font()[a]
            } else if PROGRAM_START <= a < PROGRAM_START + rom.len() {
                rom[a - PROGRAM_START]
            } else {
                ram[a]
            },
    )
}

/// The address space, registers, timers and call stack.
pub struct Memory {
    /// The address space.
    pub ram: Vec<u8>,
    /// The sixteen general-purpose registers V0 to VF.
    pub v: Vec<u8>,
    /// The index register.
    pub i: u16,
    /// The delay timer.
    pub dt: u8,
    /// The sound timer.
    pub st: u8,
    /// The program counter.
    pub pc: u16,
    /// The number of return addresses on the stack.
    pub sp: u8,
    /// The return addresses; entries `0..sp` are in use.
    pub stack: Vec<u16>,
}

fn zeroed_bytes(n: usize) -> (r: Vec<u8>)
    ensures
        r@ == Seq::new(n as nat, |k: int| 0u8),
{
    let mut r: Vec<u8> = Vec::with_capacity(n);
    while r.len() < n
        invariant
            r.len() <= n,
            forall|k: int| 0 <= k < r.len() ==> r@[k] == 0,
        decreases n - r.len(),
    {
        r.push(0);
    }
    assert(r@ =~= Seq::new(n as nat, |k: int| 0u8));
    r
}

fn zeroed_words(n: usize) -> (r: Vec<u16>)
    ensures
        r@ == Seq::new(n as nat, |k: int| 0u16),
{
    let mut r: Vec<u16> = Vec::with_capacity(n);
    while r.len() < n
        invariant
            r.len() <= n,
            forall|k: int| 0 <= k < r.len() ==> r@[k] == 0,
        decreases n - r.len(),
    {
        r.push(0);
    }
    assert(r@ =~= Seq::new(n as nat, |k: int| 0u16));
    r
}

impl Memory {
    /// Sizes are fixed, and every address held (index register, program
    /// counter, return addresses) lies inside the address space.
    pub open spec fn wf(&self) -> bool {
        &&& self.ram.len() == RAM_SIZE
        &&& self.v.len() == 16
        &&& self.stack.len() == STACK_DEPTH
        &&& self.sp <= STACK_DEPTH
        &&& self.i < RAM_SIZE
        &&& self.pc < RAM_SIZE
        &&& forall|k: int| 0 <= k < STACK_DEPTH ==> #[trigger] self.stack@[k] < RAM_SIZE
    }

    /// All-zero memory with the program counter at `PROGRAM_START`.
    pub fn new() -> (r: Memory)
        ensures
            r.wf(),
            r.ram@ == Seq::new(RAM_SIZE as nat, |a: int| 0u8),
            r.v@ == Seq::new(16, |k: int| 0u8),
            r.stack@ == Seq::new(STACK_DEPTH as nat, |k: int| 0u16),
            r.i == 0 && r.dt == 0 && r.st == 0 && r.sp == 0,
            r.pc == PROGRAM_START,
    {
        Memory {
            ram: zeroed_bytes(RAM_SIZE),
            v: zeroed_bytes(16),
            i: 0,
            dt: 0,
            st: 0,
            pc: PROGRAM_START as u16,
            sp: 0,
            stack: zeroed_words(STACK_DEPTH),
        }
    }

    /// The byte at `addr`.
    pub fn read_byte(&self, addr: usize) -> (r: Result<u8, Chip8Error>)
        requires
            self.wf(),
        ensures
            addr < RAM_SIZE ==> r == Ok::<u8, Chip8Error>(self.ram@[addr as int]),
            addr >= RAM_SIZE ==> r == Err::<u8, Chip8Error>(Chip8Error::OutOfBoundsAccess),
    {
        if addr >= RAM_SIZE {
            return Err(Chip8Error::OutOfBoundsAccess);
        }
        Ok(self.ram[addr])
    }

    /// Writes `val` at `addr`; outside the address space nothing changes.
    pub fn write_byte(&mut self, addr: usize, val: u8) -> (r: Result<(), Chip8Error>)
        requires
            old(self).wf(),
        ensures
            final(self).wf(),
            addr < RAM_SIZE ==> r is Ok && final(self).ram@ == old(self).ram@.update(addr as int, val),
            addr >= RAM_SIZE ==> r == Err::<(), Chip8Error>(Chip8Error::OutOfBoundsAccess)
                && final(self).ram == old(self).ram,
            final(self).v == old(self).v && final(self).stack == old(self).stack,
            final(self).i == old(self).i && final(self).dt == old(self).dt,
            final(self).st == old(self).st && final(self).pc == old(self).pc,
            final(self).sp == old(self).sp,
    {
        if addr >= RAM_SIZE {
            return Err(Chip8Error::OutOfBoundsAccess);
        }
        self.ram.set(addr, val);
        Ok(())
    }

    /// The big-endian word at `addr` and `addr + 1`.
    pub fn read_word(&self, addr: usize) -> (r: Result<u16, Chip8Error>)
        requires
            self.wf(),
        ensures
            addr + 1 < RAM_SIZE ==> r == Ok::<u16, Chip8Error>(
                (self.ram@[addr as int] * 256 + self.ram@[addr + 1]) as u16,
            ),
            addr + 1 >= RAM_SIZE ==> r == Err::<u16, Chip8Error>(Chip8Error::OutOfBoundsAccess),
    {
        if addr >= RAM_SIZE - 1 {
            return Err(Chip8Error::OutOfBoundsAccess);
        }
        let hi = self.ram[addr] as u16;
        let lo = self.ram[addr + 1] as u16;
        Ok(hi * 256 + lo)
    }

    /// Register `x`.
    pub fn register(&self, x: usize) -> (r: Result<u8, Chip8Error>)
        requires
            self.wf(),
        ensures
            x < 16 ==> r == Ok::<u8, Chip8Error>(self.v@[x as int]),
            x >= 16 ==> r == Err::<u8, Chip8Error>(Chip8Error::OutOfBoundsAccess),
    {
        if x >= 16 {
            return Err(Chip8Error::OutOfBoundsAccess);
        }
        Ok(self.v[x])
    }

    /// Sets register `x` to `val`; for an index past VF nothing changes.
    pub fn set_register(&mut self, x: usize, val: u8) -> (r: Result<(), Chip8Error>)
        requires
            old(self).wf(),
        ensures
            final(self).wf(),
            x < 16 ==> r is Ok && final(self).v@ == old(self).v@.update(x as int, val),
            x >= 16 ==> r == Err::<(), Chip8Error>(Chip8Error::OutOfBoundsAccess)
                && final(self).v == old(self).v,
            final(self).ram == old(self).ram && final(self).stack == old(self).stack,
            final(self).i == old(self).i && final(self).dt == old(self).dt,
            final(self).st == old(self).st && final(self).pc == old(self).pc,
            final(self).sp == old(self).sp,
    {
        if x >= 16 {
            return Err(Chip8Error::OutOfBoundsAccess);
        }
        self.v.set(x, val);
        Ok(())
    }

    /// Copies the program image to `PROGRAM_START`.
    fn load_rom(&mut self, rom: &[u8])
        requires
            old(self).wf(),
            rom.len() <= MAX_PROGRAM,
        ensures
            final(self).wf(),
            final(self).ram@ == Seq::new(
                RAM_SIZE as nat,
                |a: int|
                    if PROGRAM_START <= a < PROGRAM_START + rom@.len() {
                        rom@[a - PROGRAM_START]
                    } else {
                        old(self).ram@[a]
                    },
            ),
            final(self).v == old(self).v && final(self).stack == old(self).stack,
            final(self).i == old(self).i && final(self).dt == old(self).dt,
            final(self).st == old(self).st && final(self).pc == old(self).pc,
            final(self).sp == old(self).sp,
    {
        let ghost ram0 = self.ram@;
        let mut k: usize = 0;
        while k < rom.len()
            invariant
                self.wf(),
                k <= rom.len() <= MAX_PROGRAM,
                self.v == old(self).v && self.stack == old(self).stack,
                self.i == old(self).i && self.dt == old(self).dt,
                self.st == old(self).st && self.pc == old(self).pc,
                self.sp == old(self).sp,
                forall|a: int|
                    0 <= a < RAM_SIZE ==> #[trigger] self.ram@[a] == if PROGRAM_START <= a
                        < PROGRAM_START + k {
                        rom@[a - PROGRAM_START]
                    } else {
                        ram0[a]
                    },
            decreases rom.len() - k,
        {
            self.ram.set(PROGRAM_START + k, rom[k]);
            k = k + 1;
        }
        assert(self.ram@ =~= Seq::new(
            RAM_SIZE as nat,
            |a: int|
                if PROGRAM_START <= a < PROGRAM_START + rom@.len() {
                    rom@[a - PROGRAM_START]
                } else {
                    ram0[a]
                },
        ));
    }

    /// Copies the font to the bottom of the address space.
    fn load_digits(&mut self)
        requires
            old(self).wf(),
        ensures
            final(self).wf(),
            final(self).ram@ == Seq::new(
                RAM_SIZE as nat,
                |a: int|
                    if a < FONT_SIZE {
                        font()[a]
                    } else {
                        old(self).ram@[a]
                    },
            ),
            final(self).v == old(self).v && final(self).stack == old(self).stack,
            final(self).i == old(self).i && final(self).dt == old(self).dt,
            final(self).st == old(self).st && final(self).pc == old(self).pc,
            final(self).sp == old(self).sp,
    {
        let digits: [u8; 80] = [
            0xF0, 0x90, 0x90, 0x90, 0xF0,
            0x20, 0x60, 0x20, 0x20, 0x70,
            0xF0, 0x10, 0xF0, 0x80, 0xF0,
            0xF0, 0x10, 0xF0, 0x10, 0xF0,
            0x90, 0x90, 0xF0, 0x10, 0x10,
            0xF0, 0x80, 0xF0, 0x10, 0xF0,
            0xF0, 0x80, 0xF0, 0x90, 0xF0,
            0xF0, 0x10, 0x20, 0x40, 0x40,
            0xF0, 0x90, 0xF0, 0x90, 0xF0,
            0xF0, 0x90, 0xF0, 0x10, 0xF0,
            0xF0, 0x90, 0xF0, 0x90, 0x90,
            0xE0, 0x90, 0xE0, 0x90, 0xE0,
            0xF0, 0x80, 0x80, 0x80, 0xF0,
            0xE0, 0x90, 0x90, 0x90, 0xE0,
            0xF0, 0x80, 0xF0, 0x80, 0xF0,
            0xF0, 0x80, 0xF0, 0x80, 0x80,
        ];
        assert(digits@ =~= font());
        let ghost ram0 = self.ram@;
        let mut k: usize = 0;
        while k < FONT_SIZE
            invariant
                self.wf(),
                k <= FONT_SIZE,
                digits@ == font(),
                self.v == old(self).v && self.stack == old(self).stack,
                self.i == old(self).i && self.dt == old(self).dt,
                self.st == old(self).st && self.pc == old(self).pc,
                self.sp == old(self).sp,
                forall|a: int|
                    0 <= a < RAM_SIZE ==> #[trigger] self.ram@[a] == if a < k {
                        font()[a]
                    } else {
                        ram0[a]
                    },
            decreases FONT_SIZE - k,
        {
            self.ram.set(k, digits[k]);
            k = k + 1;
        }
        assert(self.ram@ =~= Seq::new(
            RAM_SIZE as nat,
            |a: int|
                if a < FONT_SIZE {
                    font()[a]
                } else {
                    ram0[a]
                },
        ));
    }

    /// Loads a program image and the font. An image longer than
    /// `MAX_PROGRAM` bytes is refused with `LoadError` and nothing changes.
    pub fn load(&mut self, rom: &[u8]) -> (r: Result<(), Chip8Error>)
        requires
            old(self).wf(),
        ensures
            final(self).wf(),
            r is Err <==> rom@.len() > MAX_PROGRAM,
            r is Err ==> r == Err::<(), Chip8Error>(Chip8Error::LoadError) && *final(self) == *old(self),
            r is Ok ==> final(self).ram@ == loaded(old(self).ram@, rom@),
            final(self).v == old(self).v && final(self).stack == old(self).stack,
            final(self).i == old(self).i && final(self).dt == old(self).dt,
            final(self).st == old(self).st && final(self).pc == old(self).pc,
            final(self).sp == old(self).sp,
    {
        if rom.len() > MAX_PROGRAM {
            return Err(Chip8Error::LoadError);
        }
        let ghost ram0 = self.ram@;
        self.load_rom(rom);
        self.load_digits();
        assert(self.ram@ =~= loaded(ram0, rom@));
        Ok(())
    }
}

} // verus!
