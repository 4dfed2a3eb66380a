//! The `cargo run` activity: every package is downloaded, then every package
//! is compiled, then the build finishes.
use vstd::prelude::*;
use crate::cover::chance::random_in;
use crate::cover::frame::CoverFrame;
use crate::cover::op::CoverOp;
use crate::cover::terminal::string_push_str;
use crate::highlight::analyzer::string_from_str;

verus! {

broadcast use vstd::string::group_string_axioms;

/// A package of the simulated build.
pub struct Package {
    pub name: String,
    pub version: String,
}

/// Where the simulated build is.
#[derive(Debug, Clone, Copy, PartialEq, Eq, Structural)]
pub enum CargoStage {
    Downloading,
    Compiling,
    Finished,
    Done,
}

/// What the module shows next.
#[derive(Debug)]
pub enum CargoStep {
    /// A package line, to be shown as it is.
    Frame(CoverFrame),
    /// The build has finished; the closing line tells how long it took.
    Finished,
}

/// A package's line in the given stage: the stage right-aligned in twelve
/// columns, the package name and its version.
pub open spec fn package_line(stage: CargoStage, p: Package) -> Seq<char> {
    let label = if stage == CargoStage::Downloading {
        " Downloading"@
    } else {
        "   Compiling"@
    };
    label + " "@ + p.name@ + " v"@ + p.version@
}

/// The line shown at step `pos` of a build of `packages`: the download lines,
/// then the compile lines; `None` past them.
pub open spec fn cargo_line_at(packages: Seq<Package>, pos: int) -> Option<Seq<char>> {
    let n = packages.len() as int;
    if 0 <= pos < n {
        Some(package_line(CargoStage::Downloading, packages[pos]))
    } else if n <= pos < 2 * n {
        Some(package_line(CargoStage::Compiling, packages[pos - n]))
    } else {
        None
    }
}

pub struct CargoModule {
    packages: Vec<Package>,
    stage: CargoStage,
    package_index: usize,
}

impl CargoModule {
    /// The packages of the build.
    pub closed spec fn packages_spec(&self) -> Seq<Package> {
        self.packages@
    }

    /// How far the build is, in steps: `n` download steps, `n` compile steps,
    /// the finish, then done (for `n` packages).
    pub closed spec fn position(&self) -> int {
        let n = self.packages@.len() as int;
        match self.stage {
            CargoStage::Downloading => self.package_index as int,
            CargoStage::Compiling => n + self.package_index,
            CargoStage::Finished => 2 * n,
            CargoStage::Done => 2 * n + 1,
        }
    }

    pub closed spec fn wf(&self) -> bool {
        (self.stage == CargoStage::Downloading || self.stage == CargoStage::Compiling) ==> self.package_index
            <= self.packages@.len()
    }

    /// A build of `packages`, about to download the first.
    pub fn new(packages: Vec<Package>) -> (m: CargoModule)
        ensures
            m.wf(),
            m.packages_spec() == packages@,
            m.position() == 0,
    {
        CargoModule { packages, stage: CargoStage::Downloading, package_index: 0 }
    }

    fn package_frame(&mut self, stage: CargoStage) -> (frame: CoverFrame)
        requires
            old(self).package_index < old(self).packages@.len(),
            stage == CargoStage::Downloading || stage == CargoStage::Compiling,
        ensures
            final(self).packages@ == old(self).packages@,
            final(self).stage == old(self).stage,
            final(self).package_index == old(self).package_index + 1,
            frame.ops@.len() == 2,
            frame.ops@[0] matches CoverOp::Write(line) && line@ == package_line(
                stage,
                old(self).packages@[old(self).package_index as int],
            ),
            frame.ops@[1] == CoverOp::NewLine,
            100 <= frame.delay_ms < 2000,
    {
        let index = self.package_index;
        let count = self.packages.len();
        assert(index < count);
        let package = &self.packages[index];
        let mut line = if stage == CargoStage::Downloading {
            string_from_str(" Downloading")
        } else {
            string_from_str("   Compiling")
        };
        string_push_str(&mut line, " ");
        string_push_str(&mut line, package.name.as_str());
        string_push_str(&mut line, " v");
        string_push_str(&mut line, package.version.as_str());
        self.package_index = index + 1;
        let delay = random_in(100, 2000);
        let ops = vec![CoverOp::Write(line), CoverOp::NewLine];
        CoverFrame::new(ops, delay)
    }

    /// The next step of the build: a package line (shown for a random 100 to
    /// 2000 milliseconds), the finish, or nothing once the build is done.
    pub fn next_frame(&mut self) -> (step: Option<CargoStep>)
        requires
            old(self).wf(),
        ensures
            final(self).wf(),
            final(self).packages_spec() == old(self).packages_spec(),
            final(self).position() == if old(self).position() <= 2 * old(self).packages_spec().len() {
                old(self).position() + 1
            } else {
                old(self).position()
            },
            match step {
                Some(CargoStep::Frame(frame)) => {
                    &&& cargo_line_at(old(self).packages_spec(), old(self).position()) matches Some(text)
                    &&& frame.ops@.len() == 2
                    &&& frame.ops@[0] matches CoverOp::Write(line) && line@ == text
                    &&& frame.ops@[1] == CoverOp::NewLine
                    &&& 100 <= frame.delay_ms < 2000
                },
                Some(CargoStep::Finished) => old(self).position() == 2 * old(self).packages_spec().len(),
                None => old(self).position() == 2 * old(self).packages_spec().len() + 1,
            },
    {
        if self.stage == CargoStage::Downloading {
            if self.package_index < self.packages.len() {
                return Some(CargoStep::Frame(self.package_frame(CargoStage::Downloading)));
            }
            self.stage = CargoStage::Compiling;
            self.package_index = 0;
        }
        if self.stage == CargoStage::Compiling {
            if self.package_index < self.packages.len() {
                return Some(CargoStep::Frame(self.package_frame(CargoStage::Compiling)));
            }
            self.stage = CargoStage::Finished;
            self.package_index = 0;
        }
        if self.stage == CargoStage::Finished {
            self.stage = CargoStage::Done;
            return Some(CargoStep::Finished);
        }
        None
    }
}

} // verus!
