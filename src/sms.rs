use vstd::prelude::*;
use crate::addr::Addr;
use crate::dolphin::Dolphin;
use crate::mem_addr::DolphinMemAddr;
use crate::vt::{class_of, class_text, get_class, get_class_string, ClassTable};

verus! {

/// The builds of the game that are recognised.
#[derive(Clone, Copy, Debug, PartialEq, Eq, Structural)]
pub enum SMSVersion {
    GMSJ01,
    GMSE01,
    GMSP01,
    GMSJ0A,
}

/// The eight bytes that open the low region when a build is running: the
/// game id followed by its disc and revision bytes.
pub open spec fn header_of(v: SMSVersion) -> Seq<u8> {
    match v {
        SMSVersion::GMSJ01 => seq![0x47u8, 0x4D, 0x53, 0x4A, 0x30, 0x31, 0x00, 0x00],
        SMSVersion::GMSE01 => seq![0x47u8, 0x4D, 0x53, 0x45, 0x30, 0x31, 0x00, 0x30],
        SMSVersion::GMSP01 => seq![0x47u8, 0x4D, 0x53, 0x50, 0x30, 0x31, 0x00, 0x00],
        SMSVersion::GMSJ0A => seq![0x47u8, 0x4D, 0x53, 0x4A, 0x30, 0x31, 0x00, 0x01],
    }
}

/// The name of a build.
pub open spec fn version_name(v: SMSVersion) -> Seq<char> {
    match v {
        SMSVersion::GMSJ01 => seq!['G', 'M', 'S', 'J', '0', '1'],
        SMSVersion::GMSE01 => seq!['G', 'M', 'S', 'E', '0', '1'],
        SMSVersion::GMSP01 => seq!['G', 'M', 'S', 'P', '0', '1'],
        SMSVersion::GMSJ0A => seq!['G', 'M', 'S', 'J', '0', 'A'],
    }
}

fn is_header(b: &[u8], v: SMSVersion) -> (r: bool)
    ensures
        r == (b@ == header_of(v)),
{
    if b.len() != 8 {
        return false;
    }
    let (c3, c7): (u8, u8) = match v {
        SMSVersion::GMSJ01 => (0x4A, 0x00),
        SMSVersion::GMSE01 => (0x45, 0x30),
        SMSVersion::GMSP01 => (0x50, 0x00),
        SMSVersion::GMSJ0A => (0x4A, 0x01),
    };
    let r = b[0] == 0x47 && b[1] == 0x4D && b[2] == 0x53 && b[3] == c3 && b[4] == 0x30 && b[5]
        == 0x31 && b[6] == 0x00 && b[7] == c7;
    if r {
        assert(b@ =~= header_of(v));
    } else {
        assert(b@ == header_of(v) ==> (b@[0] == 0x47 && b@[1] == 0x4D && b@[2] == 0x53 && b@[3]
            == c3 && b@[4] == 0x30 && b@[5] == 0x31 && b@[6] == 0x00 && b@[7] == c7));
    }
    r
}

impl SMSVersion {
    /// The build whose header `b` is.
    pub fn from_header(b: &[u8]) -> (r: Option<SMSVersion>)
        ensures
            r matches Some(v) ==> b@ == header_of(v),
            r is None ==> forall|v: SMSVersion| b@ != header_of(v),
    {
        if is_header(b, SMSVersion::GMSJ01) {
            Some(SMSVersion::GMSJ01)
        } else if is_header(b, SMSVersion::GMSE01) {
            Some(SMSVersion::GMSE01)
        } else if is_header(b, SMSVersion::GMSP01) {
            Some(SMSVersion::GMSP01)
        } else if is_header(b, SMSVersion::GMSJ0A) {
            Some(SMSVersion::GMSJ0A)
        } else {
            assert forall|v: SMSVersion| b@ != header_of(v) by {
                match v {
                    SMSVersion::GMSJ01 => {},
                    SMSVersion::GMSE01 => {},
                    SMSVersion::GMSP01 => {},
                    SMSVersion::GMSJ0A => {},
                }
            }
            None
        }
    }

    /// The name of the build.
    pub fn to_string(&self) -> (r: String)
        ensures
            r@ == version_name(*self),
    {
        let s = match self {
            SMSVersion::GMSJ01 => "GMSJ01",
            SMSVersion::GMSE01 => "GMSE01",
            SMSVersion::GMSP01 => "GMSP01",
            SMSVersion::GMSJ0A => "GMSJ0A",
        };
        proof {
            reveal_strlit("GMSJ01");
            reveal_strlit("GMSE01");
            reveal_strlit("GMSP01");
            reveal_strlit("GMSJ0A");
        }
        let r = s.to_owned();
        assert(r@ =~= version_name(*self));
        r
    }
}

/// Why no running game could be found.
#[derive(Clone, Copy, Debug, PartialEq, Eq, Structural)]
pub enum SMSDolphinFindOneError {
    DolphinNotRunning,
    NoGameRunning,
    SMSNotRunning,
}

impl SMSDolphinFindOneError {
    /// The user-facing explanation.
    pub fn to_string(&self) -> (r: String)
        ensures
            r@ == (match *self {
                SMSDolphinFindOneError::DolphinNotRunning => "Dolphin is not running"@,
                SMSDolphinFindOneError::NoGameRunning => "Dolphin is found, but no game is running"@,
                SMSDolphinFindOneError::SMSNotRunning => "SMS is not running"@,
            }),
    {
        let s = match self {
            SMSDolphinFindOneError::DolphinNotRunning => "Dolphin is not running",
            SMSDolphinFindOneError::NoGameRunning => "Dolphin is found, but no game is running",
            SMSDolphinFindOneError::SMSNotRunning => "SMS is not running",
        };
        s.to_owned()
    }
}

/// A running build of the game, reached through a memory backend.
pub struct SMSDolphin<D: Dolphin> {
    d: D,
    pid: u32,
    ver: SMSVersion,
    classes: ClassTable,
}

impl<D: Dolphin> SMSDolphin<D> {
    /// The process id of the emulator.
    pub closed spec fn spec_pid(&self) -> u32 {
        self.pid
    }

    /// The running build.
    pub closed spec fn spec_ver(&self) -> SMSVersion {
        self.ver
    }

    /// The class-name table in use.
    pub closed spec fn spec_classes(&self) -> Seq<(u32, Seq<char>)> {
        self.classes@
    }

    /// The backend.
    pub closed spec fn spec_backend(&self) -> D {
        self.d
    }

    /// Recognises the running build from the header at the start of the low
    /// region: `Err(None)` when the header cannot be read, `Err(Some(header))`
    /// when it is not one of a known build. The class-name table starts empty.
    pub fn from_dolphin_memory(d: D, pid: u32) -> (r: Result<SMSDolphin<D>, Option<Vec<u8>>>)
        ensures
            r matches Ok(s) ==> s.spec_pid() == pid && s.spec_backend() == d && s.spec_classes().len()
                == 0,
            r matches Err(Some(h)) ==> h@.len() == 8 && forall|v: SMSVersion| h@ != header_of(v),
            d.serves(DolphinMemAddr::MEM1(0)) ==> !(r matches Err(None)),
    {
        match d.read_memory_unchecked(DolphinMemAddr::MEM1(0), 8) {
            Some(h) => match SMSVersion::from_header(h.as_slice()) {
                Some(ver) => Ok(SMSDolphin { d, pid, ver, classes: ClassTable::new() }),
                None => Err(Some(h)),
            },
            None => Err(None),
        }
    }

    /// The first emulator among `candidates` that runs a known build. A
    /// candidate holds the process id and the backend, when it could be
    /// opened.
    pub fn find_one(candidates: Vec<(u32, Option<D>)>) -> (r: Result<SMSDolphin<D>, SMSDolphinFindOneError>)
        ensures
            r == Err::<SMSDolphin<D>, SMSDolphinFindOneError>(SMSDolphinFindOneError::DolphinNotRunning)
                <==> candidates@.len() == 0,
            r == Err::<SMSDolphin<D>, SMSDolphinFindOneError>(SMSDolphinFindOneError::NoGameRunning)
                <==> (candidates@.len() > 0 && forall|i: int| 0 <= i < candidates@.len() ==> candidates@[i].1 is None),
            r == Err::<SMSDolphin<D>, SMSDolphinFindOneError>(SMSDolphinFindOneError::SMSNotRunning)
                ==> exists|i: int| 0 <= i < candidates@.len() && candidates@[i].1 is Some,
            r matches Ok(s) ==> exists|i: int| 0 <= i < candidates@.len() && candidates@[i].0 == s.spec_pid()
                && candidates@[i].1 == Some(s.spec_backend()),
    {
        let ghost all = candidates@;
        let n = candidates.len();
        let mut rest = candidates;
        let mut dolphin_running = false;
        let mut game_running = false;
        let mut k: usize = 0;
        while rest.len() > 0
            invariant
                k + rest@.len() == all.len(),
                all == candidates@,
                all.len() == n,
                rest@ == all.subrange(k as int, all.len() as int),
                game_running ==> exists|i: int| 0 <= i < k && all[i].1 is Some,
                !game_running ==> forall|i: int| 0 <= i < k ==> all[i].1 is None,
                dolphin_running ==> k > 0,
                k > 0 ==> dolphin_running || game_running,
            decreases rest@.len(),
        {
            let (pid, d) = rest.remove(0);
            assert(all[k as int] == (pid, d));
            match d {
                Some(d) => {
                    match SMSDolphin::from_dolphin_memory(d, pid) {
                        Ok(o) => {
                            assert(all[k as int].1 is Some);
                            return Ok(o);
                        },
                        Err(_) => {
                            game_running = true;
                        },
                    }
                },
                None => {
                    dolphin_running = true;
                },
            }
            k += 1;
            assert(rest@ =~= all.subrange(k as int, all.len() as int));
        }
        if game_running {
            Err(SMSDolphinFindOneError::SMSNotRunning)
        } else if dolphin_running {
            Err(SMSDolphinFindOneError::NoGameRunning)
        } else {
            Err(SMSDolphinFindOneError::DolphinNotRunning)
        }
    }

    /// The running build.
    pub fn ver(&self) -> (r: SMSVersion)
        ensures
            r == self.spec_ver(),
    {
        self.ver
    }

    /// The process id of the emulator.
    pub fn pid(&self) -> (r: u32)
        ensures
            r == self.spec_pid(),
    {
        self.pid
    }

    /// Puts a class-name table in use.
    pub fn set_classes(&mut self, classes: ClassTable)
        ensures
            final(self).spec_classes() == classes@,
            final(self).spec_pid() == old(self).spec_pid(),
            final(self).spec_ver() == old(self).spec_ver(),
            final(self).spec_backend() == old(self).spec_backend(),
    {
        self.classes = classes;
    }

    /// The class name registered for a type-descriptor address.
    pub fn get_class(&self, addr: Addr) -> (r: Option<&str>)
        ensures
            r matches Some(s) ==> class_of(self.spec_classes(), addr.0) == Some(s@),
            r is None ==> class_of(self.spec_classes(), addr.0) is None,
    {
        get_class(&self.classes, addr)
    }

    /// The class name for a type-descriptor address, or the address in parentheses.
    pub fn get_class_string(&self, addr: Addr) -> (r: String)
        ensures
            r@ == class_text(self.spec_classes(), addr.0),
    {
        get_class_string(&self.classes, addr)
    }
}

impl<D: Dolphin> Dolphin for SMSDolphin<D> {
    open spec fn serves(&self, maddr: DolphinMemAddr) -> bool {
        self.spec_backend().serves(maddr)
    }

    open spec fn wrote(&self, before: &Self, maddr: DolphinMemAddr, payload: Seq<u8>) -> bool {
        &&& self.spec_backend().wrote(&before.spec_backend(), maddr, payload)
        &&& self.spec_pid() == before.spec_pid()
        &&& self.spec_ver() == before.spec_ver()
        &&& self.spec_classes() == before.spec_classes()
    }

    fn read_memory_unchecked(&self, maddr: DolphinMemAddr, size: usize) -> (r: Option<Vec<u8>>) {
        self.d.read_memory_unchecked(maddr, size)
    }

    fn write_memory_unchecked(&mut self, maddr: DolphinMemAddr, payload: &[u8]) -> (r: Option<()>) {
        self.d.write_memory_unchecked(maddr, payload)
    }
}

} // verus!
