//! Debugging targets: the in-process emulator and the flash cartridge.

pub mod edpro;

use crate::text::{ascii_lower, lower, text_eq};
use vstd::prelude::*;

verus! {

/// Kind of target.
#[derive(Debug, Clone, Copy, PartialEq, Eq, Structural)]
pub enum TargetKind {
    Emulator,
    EdPro,
}

impl TargetKind {
    /// The kind's name.
    pub open spec fn label(self) -> Seq<char> {
        match self {
            TargetKind::Emulator => "emulator"@,
            TargetKind::EdPro => "edpro"@,
        }
    }

    /// The kind that a lower-case name stands for.
    pub open spec fn named(s: Seq<char>) -> Option<TargetKind> {
        if s == "emulator"@ || s == "emu"@ {
            Some(TargetKind::Emulator)
        } else if s == "edpro"@ || s == "ed-pro"@ || s == "everdrive"@ {
            Some(TargetKind::EdPro)
        } else {
            None
        }
    }

    /// The kind's name.
    pub fn as_str(self) -> (r: &'static str)
        ensures
            r@ == self.label(),
    {
        match self {
            TargetKind::Emulator => "emulator",
            TargetKind::EdPro => "edpro",
        }
    }

    /// Parses a kind, ignoring ASCII case.
    pub fn parse(s: &str) -> (r: Option<TargetKind>)
        ensures
            r == TargetKind::named(lower(s@)),
    {
        let name = ascii_lower(s);
        let n = name.as_str();
        if text_eq(n, "emulator") || text_eq(n, "emu") {
            Some(TargetKind::Emulator)
        } else if text_eq(n, "edpro") || text_eq(n, "ed-pro") || text_eq(n, "everdrive") {
            Some(TargetKind::EdPro)
        } else {
            None
        }
    }
}

/// A kind's name parses back to it.
pub proof fn law_target_name_parses(k: TargetKind)
    ensures
        TargetKind::named(lower(k.label())) == Some(k),
{
    reveal_strlit("emulator");
    reveal_strlit("edpro");
    reveal_strlit("emu");
    assert(lower(k.label()) =~= k.label());
    assert("edpro"@.len() != "emulator"@.len());
    assert("edpro"@.len() != "emu"@.len());
}

/// The reason that a target gives for what it cannot do.
pub const NOT_SUPPORTED: &'static str = "not_supported_on_target";

/// How the cartridge is reached.
#[derive(Debug)]
pub struct EdProConfig {
    /// Serial port; there is no default.
    pub port: Option<String>,
    /// Baud rate; the cartridge ignores it.
    pub baud: u32,
    /// Reserved for port detection.
    pub auto_detect_port: bool,
    /// Path of a debug ELF of the running game.
    pub elf_path: Option<String>,
}

/// Default baud rate of the cartridge's serial port.
pub const DEFAULT_BAUD: u32 = 9600;

impl Default for EdProConfig {
    /// No port, no ELF.
    fn default() -> (r: Self)
        ensures
            r.port is None,
            r.baud == DEFAULT_BAUD,
            !r.auto_detect_port,
            r.elf_path is None,
    {
        EdProConfig { port: None, baud: DEFAULT_BAUD, auto_detect_port: false, elf_path: None }
    }
}

/// Each kind of target is known under its names, in any case, and under no other.
pub proof fn law_target_names(name: Seq<char>)
    ensures
        TargetKind::named(lower(name)) == Some(TargetKind::Emulator) <==> lower(name)
            == "emulator"@ || lower(name) == "emu"@,
        TargetKind::named(lower(name)) == Some(TargetKind::EdPro) <==> lower(name) == "edpro"@
            || lower(name) == "ed-pro"@ || lower(name) == "everdrive"@,
        TargetKind::Emulator.label() == "emulator"@,
        TargetKind::EdPro.label() == "edpro"@,
{
    reveal_strlit("emulator");
    reveal_strlit("emu");
    reveal_strlit("edpro");
    reveal_strlit("ed-pro");
    reveal_strlit("everdrive");
    assert("emulator"@.len() == 8 && "emu"@.len() == 3 && "edpro"@.len() == 5 && "ed-pro"@.len()
        == 6 && "everdrive"@.len() == 9);
}

} // verus!
