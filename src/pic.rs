//! The chain of two 8259 interrupt controllers, master and slave, and the
//! order in which they are acknowledged.
use vstd::prelude::*;
use crate::interrupts::{PIC_1_OFFSET, PIC_2_OFFSET};

verus! {

/// The master line that the slave controller is wired to.
pub const CASCADE_LINE: u8 = 2;

/// One controller: its first vector, its mask register (a set bit masks that
/// line) and its in-service register (a set bit marks a line being serviced).
#[derive(Clone, Copy, Debug, PartialEq, Eq, Structural)]
pub struct Pic {
    pub offset: u8,
    pub mask: u8,
    pub in_service: u8,
}

pub open spec fn bit(m: u8, line: u8) -> bool {
    (m >> line) & 1u8 == 1u8
}

impl Pic {
    /// The controller owns the vector: it is one of its eight.
    pub open spec fn handles(self, vector: u8) -> bool {
        self.offset <= vector < self.offset + 8
    }

    /// A request on `line` reaches the CPU: the line is unmasked and no line of
    /// equal or higher priority (a lower number) is being serviced.
    pub open spec fn accepts(self, line: u8) -> bool {
        &&& !bit(self.mask, line)
        &&& ((self.in_service << ((7 - line) as u8)) as u8) == 0
    }

    /// The in-service register after a non-specific end of interrupt, which
    /// clears the highest-priority line in service.
    pub open spec fn after_end_of_interrupt(self) -> Pic {
        Pic {
            in_service: if self.in_service == 0 {
                0
            } else {
                self.in_service & ((self.in_service - 1) as u8)
            },
            ..self
        }
    }

    fn handles_interrupt(&self, vector: u8) -> (r: bool)
        ensures
            r == self.handles(vector),
    {
        self.offset <= vector && (vector as u16) < (self.offset as u16) + 8
    }

    fn end_of_interrupt(&mut self)
        ensures
            *final(self) == old(self).after_end_of_interrupt(),
    {
        if self.in_service != 0 {
            self.in_service = self.in_service & (self.in_service - 1);
        }
    }
}

/// The two controllers of the chain.
#[derive(Clone, Copy, Debug, PartialEq, Eq)]
pub enum Controller {
    Master,
    Slave,
}

/// The controller chain: master and slave, and whether it has been initialized.
#[derive(Clone, Copy, Debug, PartialEq, Eq, Structural)]
pub struct ControllerChain {
    pub master: Pic,
    pub slave: Pic,
    pub initialized: bool,
}

/// The controllers to acknowledge after servicing `vector`, in order: for a
/// slave vector the slave first, then the master it is cascaded through; for
/// a master vector the master alone; for any other vector none.
pub open spec fn acknowledgment_order(c: ControllerChain, vector: u8) -> Seq<Controller> {
    if c.slave.handles(vector) {
        seq![Controller::Slave, Controller::Master]
    } else if c.master.handles(vector) {
        seq![Controller::Master]
    } else {
        Seq::empty()
    }
}

/// The chain after the end of interrupt for `vector` has been sent.
pub open spec fn after_end_of_interrupt(c: ControllerChain, vector: u8) -> ControllerChain {
    if c.slave.handles(vector) {
        ControllerChain {
            slave: c.slave.after_end_of_interrupt(),
            master: c.master.after_end_of_interrupt(),
            ..c
        }
    } else if c.master.handles(vector) {
        ControllerChain { master: c.master.after_end_of_interrupt(), ..c }
    } else {
        c
    }
}

/// What a request on `line` (0 to 7 on the master, 8 to 15 on the slave) does:
/// the vector delivered to the CPU, if any, and the chain afterwards.
pub open spec fn after_request(c: ControllerChain, line: u8) -> (ControllerChain, Option<u8>) {
    if !c.initialized {
        (c, None)
    } else if line < 8 {
        if c.master.accepts(line) {
            (
                ControllerChain {
                    master: Pic { in_service: c.master.in_service | ((1u8 << line) as u8), ..c.master },
                    ..c
                },
                Some((c.master.offset + line) as u8),
            )
        } else {
            (c, None)
        }
    } else {
        let l = (line - 8) as u8;
        if c.slave.accepts(l) && c.master.accepts(CASCADE_LINE) {
            (
                ControllerChain {
                    master: Pic {
                        in_service: c.master.in_service | ((1u8 << CASCADE_LINE) as u8),
                        ..c.master
                    },
                    slave: Pic { in_service: c.slave.in_service | ((1u8 << l) as u8), ..c.slave },
                    ..c
                },
                Some((c.slave.offset + l) as u8),
            )
        } else {
            (c, None)
        }
    }
}

impl ControllerChain {
    /// The chain with the master at vector 32 and the slave at vector 40, all
    /// lines masked, nothing in service, not yet initialized.
    pub fn new() -> (r: ControllerChain)
        ensures
            r == (ControllerChain {
                master: Pic { offset: PIC_1_OFFSET, mask: 0xff, in_service: 0 },
                slave: Pic { offset: PIC_2_OFFSET, mask: 0xff, in_service: 0 },
                initialized: false,
            }),
    {
        ControllerChain {
            master: Pic { offset: PIC_1_OFFSET, mask: 0xff, in_service: 0 },
            slave: Pic { offset: PIC_2_OFFSET, mask: 0xff, in_service: 0 },
            initialized: false,
        }
    }

    /// Initializes both controllers on their vector offsets and unmasks all
    /// their lines.
    pub fn initialize(&mut self)
        ensures
            *final(self) == (ControllerChain {
                master: Pic { offset: old(self).master.offset, mask: 0, in_service: 0 },
                slave: Pic { offset: old(self).slave.offset, mask: 0, in_service: 0 },
                initialized: true,
            }),
    {
        self.master = Pic { offset: self.master.offset, mask: 0, in_service: 0 };
        self.slave = Pic { offset: self.slave.offset, mask: 0, in_service: 0 };
        self.initialized = true;
    }

    /// Whether `vector` belongs to one of the two controllers.
    pub fn handles_interrupt(&self, vector: u8) -> (r: bool)
        ensures
            r == (self.master.handles(vector) || self.slave.handles(vector)),
    {
        self.master.handles_interrupt(vector) || self.slave.handles_interrupt(vector)
    }

    /// The controllers that the end of interrupt for `vector` goes to, in the
    /// order it must reach them.
    pub fn end_of_interrupt_order(&self, vector: u8) -> (r: Vec<Controller>)
        ensures
            r@ == acknowledgment_order(*self, vector),
    {
        let mut r: Vec<Controller> = Vec::new();
        if self.handles_interrupt(vector) {
            if self.slave.handles_interrupt(vector) {
                r.push(Controller::Slave);
            }
            r.push(Controller::Master);
        }
        proof {
            assert(r@ =~= acknowledgment_order(*self, vector));
        }
        r
    }

    /// Signals the end of the interrupt for `vector`: to the slave first if the
    /// vector is the slave's, then to the master; nothing for a vector of
    /// neither controller.
    pub fn notify_end_of_interrupt(&mut self, vector: u8)
        ensures
            *final(self) == after_end_of_interrupt(*old(self), vector),
    {
        if self.handles_interrupt(vector) {
            if self.slave.handles_interrupt(vector) {
                self.slave.end_of_interrupt();
            }
            self.master.end_of_interrupt();
        }
    }

    /// A device raises `line`: returns the vector delivered to the CPU, if the
    /// chain lets the request through.
    pub fn request(&mut self, line: u8) -> (r: Option<u8>)
        requires
            line < 16,
            old(self).master.offset <= 247,
            old(self).slave.offset <= 247,
        ensures
            (*final(self), r) == after_request(*old(self), line),
    {
        if !self.initialized {
            return None;
        }
        if line < 8 {
            if (self.master.mask >> line) & 1 != 1 && self.master.in_service << (7 - line) == 0 {
                self.master.in_service = self.master.in_service | (1u8 << line);
                Some(self.master.offset + line)
            } else {
                None
            }
        } else {
            let l = line - 8;
            if (self.slave.mask >> l) & 1 != 1 && self.slave.in_service << (7 - l) == 0 && (self.master.mask
                >> CASCADE_LINE) & 1 != 1 && self.master.in_service << (7 - CASCADE_LINE) == 0 {
                self.master.in_service = self.master.in_service | (1u8 << CASCADE_LINE);
                self.slave.in_service = self.slave.in_service | (1u8 << l);
                Some(self.slave.offset + l)
            } else {
                None
            }
        }
    }
}

} // verus!
