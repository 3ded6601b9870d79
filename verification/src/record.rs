//! What a document holds: the run information and the events.

use vstd::prelude::*;
use crate::number::Real;

verus! {

/// The literals of a sequence of real numbers.
pub open spec fn literals(v: Seq<Real>) -> Seq<Seq<char>> {
    Seq::new(v.len(), |j: int| v[j]@)
}

/// The run information as plain values: integers, and the literals of the
/// real numbers.
pub struct RunInfo {
    /// The two beam particles.
    pub idbmup: Seq<i32>,
    /// The two beam energies.
    pub ebmup: Seq<Seq<char>>,
    /// The two groups of parton distributions.
    pub pdfgup: Seq<i32>,
    /// The two sets of parton distributions.
    pub pdfsup: Seq<i32>,
    /// How event weights are to be read.
    pub idwtup: i32,
    /// The number of subprocesses.
    pub nprup: i32,
    /// The cross section of each subprocess.
    pub xsecup: Seq<Seq<char>>,
    /// The error of each cross section.
    pub xerrup: Seq<Seq<char>>,
    /// The maximum weight of each subprocess.
    pub xmaxup: Seq<Seq<char>>,
    /// The identifier of each subprocess.
    pub lprup: Seq<i32>,
    /// What follows the table, as it was written.
    pub info: Seq<char>,
}

impl RunInfo {
    /// The beams and their distributions come in pairs, and each column of
    /// the table has one entry for each subprocess.
    pub open spec fn wf(self) -> bool {
        &&& self.idbmup.len() == 2
        &&& self.ebmup.len() == 2
        &&& self.pdfgup.len() == 2
        &&& self.pdfsup.len() == 2
        &&& self.nprup >= 0
        &&& self.xsecup.len() == self.nprup
        &&& self.xerrup.len() == self.nprup
        &&& self.xmaxup.len() == self.nprup
        &&& self.lprup.len() == self.nprup
    }
}

/// An event as plain values: integers, and the literals of the real
/// numbers.
pub struct EventRecord {
    /// The number of particles.
    pub nup: i32,
    /// The subprocess of the event.
    pub idrup: i32,
    /// The weight of the event.
    pub xwgtup: Seq<char>,
    /// The energy scale.
    pub scalup: Seq<char>,
    /// The electromagnetic coupling.
    pub aqedup: Seq<char>,
    /// The strong coupling.
    pub aqcdup: Seq<char>,
    /// The identifier of each particle.
    pub idup: Seq<i32>,
    /// The status of each particle.
    pub istup: Seq<i32>,
    /// The two mothers of each particle.
    pub mothup: Seq<Seq<i32>>,
    /// The two colour lines of each particle.
    pub icolup: Seq<Seq<i32>>,
    /// The five components of the momentum of each particle.
    pub pup: Seq<Seq<Seq<char>>>,
    /// The lifetime of each particle.
    pub vtimup: Seq<Seq<char>>,
    /// The spin angle of each particle.
    pub spinup: Seq<Seq<char>>,
    /// What follows the particles, as it was written.
    pub info: Seq<char>,
}

impl EventRecord {
    /// Each column of the table has one entry for each particle.
    pub open spec fn wf(self) -> bool {
        &&& self.nup >= 0
        &&& self.idup.len() == self.nup
        &&& self.istup.len() == self.nup
        &&& self.mothup.len() == self.nup
        &&& self.icolup.len() == self.nup
        &&& self.pup.len() == self.nup
        &&& self.vtimup.len() == self.nup
        &&& self.spinup.len() == self.nup
    }
}

/// Generator run information.
///
/// See <https://arxiv.org/abs/hep-ph/0109068v1> for details on the fields.
#[allow(non_snake_case)]
#[derive(Debug, Clone)]
pub struct HEPRUP {
    /// Beam IDs
    pub IDBMUP: [i32; 2],
    /// Beam energies
    pub EBMUP: [Real; 2],
    /// PDF groups
    pub PDFGUP: [i32; 2],
    /// PDF set IDs
    pub PDFSUP: [i32; 2],
    /// Event weight specification
    pub IDWTUP: i32,
    /// Number of subprocesses
    pub NPRUP: i32,
    /// Subprocess cross sections
    pub XSECUP: Vec<Real>,
    /// Subprocess cross section errors
    pub XERRUP: Vec<Real>,
    /// Subprocess maximum weights
    pub XMAXUP: Vec<Real>,
    /// Process IDs
    pub LPRUP: Vec<i32>,
    /// Optional run information
    pub info: String,
}

impl View for HEPRUP {
    type V = RunInfo;

    open spec fn view(&self) -> RunInfo {
        RunInfo {
            idbmup: self.IDBMUP@,
            ebmup: literals(self.EBMUP@),
            pdfgup: self.PDFGUP@,
            pdfsup: self.PDFSUP@,
            idwtup: self.IDWTUP,
            nprup: self.NPRUP,
            xsecup: literals(self.XSECUP@),
            xerrup: literals(self.XERRUP@),
            xmaxup: literals(self.XMAXUP@),
            lprup: self.LPRUP@,
            info: self.info@,
        }
    }
}

/// Event information.
///
/// See <https://arxiv.org/abs/hep-ph/0109068v1> for details on the fields.
#[allow(non_snake_case)]
#[derive(Debug, Clone)]
pub struct HEPEUP {
    /// Number of particles
    pub NUP: i32,
    /// Process ID
    pub IDRUP: i32,
    /// Event weight
    pub XWGTUP: Real,
    /// Scale in GeV
    pub SCALUP: Real,
    /// Value of the QED coupling
    pub AQEDUP: Real,
    /// Value of the QCD coupling
    pub AQCDUP: Real,
    /// Particle IDs
    pub IDUP: Vec<i32>,
    /// Particle status
    pub ISTUP: Vec<i32>,
    /// Indices of decay mothers
    pub MOTHUP: Vec<[i32; 2]>,
    /// Colour flow
    pub ICOLUP: Vec<[i32; 2]>,
    /// Particle momentum in GeV
    pub PUP: Vec<[Real; 5]>,
    /// Lifetime in mm
    pub VTIMUP: Vec<Real>,
    /// Spin angle
    pub SPINUP: Vec<Real>,
    /// Optional event information
    pub info: String,
}

impl View for HEPEUP {
    type V = EventRecord;

    open spec fn view(&self) -> EventRecord {
        EventRecord {
            nup: self.NUP,
            idrup: self.IDRUP,
            xwgtup: self.XWGTUP@,
            scalup: self.SCALUP@,
            aqedup: self.AQEDUP@,
            aqcdup: self.AQCDUP@,
            idup: self.IDUP@,
            istup: self.ISTUP@,
            mothup: Seq::new(self.MOTHUP@.len(), |j: int| self.MOTHUP@[j]@),
            icolup: Seq::new(self.ICOLUP@.len(), |j: int| self.ICOLUP@[j]@),
            pup: Seq::new(self.PUP@.len(), |j: int| literals(self.PUP@[j]@)),
            vtimup: literals(self.VTIMUP@),
            spinup: literals(self.SPINUP@),
            info: self.info@,
        }
    }
}

} // verus!
