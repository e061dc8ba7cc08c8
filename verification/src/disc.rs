//! Which kind of disc lies in the drive.
use vstd::prelude::*;

verus! {

#[derive(Debug, Clone, Copy, PartialEq, Eq, Structural)]
pub enum DiscFormat {
    BluRay,
    Dvd,
}

impl DiscFormat {
    /// The name shown to the user.
    pub open spec fn label_text(self) -> Seq<char> {
        match self {
            DiscFormat::BluRay => "Blu-ray"@,
            DiscFormat::Dvd => "DVD"@,
        }
    }

    /// The name shown to the user.
    pub fn label(&self) -> (r: &'static str)
        ensures
            r@ == self.label_text(),
    {
        match self {
            DiscFormat::BluRay => "Blu-ray",
            DiscFormat::Dvd => "DVD",
        }
    }
}

/// What the Blu-ray library says of a path.
#[derive(Debug, Clone, Copy, PartialEq, Eq, Structural)]
pub enum BdProbe {
    NotOpened,
    NoInfo,
    Info { bluray_detected: u8 },
}

/// What the DVD library says of a path.
#[derive(Debug, Clone, Copy, PartialEq, Eq, Structural)]
pub enum DvdProbe {
    NotOpened,
    NoIfo,
    Ifo,
}

impl BdProbe {
    /// Opening succeeds on other media too, so the detection flag, not the open
    /// success, is the Blu-ray signal.
    pub open spec fn finds_bluray(self) -> bool {
        self matches BdProbe::Info { bluray_detected } && bluray_detected != 0
    }

    /// Is there a Blu-ray disc, so that nothing else need be tried?
    pub fn is_bluray(&self) -> (r: bool)
        ensures
            r == self.finds_bluray(),
    {
        match self {
            BdProbe::Info { bluray_detected } => *bluray_detected != 0,
            _ => false,
        }
    }
}

/// What is said where neither kind of disc is found.
pub open spec fn no_disc_text(path: Seq<char>) -> Seq<char> {
    "No Blu-ray or DVD video disc detected at '"@ + path + "'"@
}

/// Detect whether the device/ISO/directory at `path` holds a Blu-ray or a
/// DVD-Video disc. Blu-ray goes first.
pub fn detect_disc_format(path: &str, bd: BdProbe, dvd: DvdProbe) -> (r: Result<
    DiscFormat,
    String,
>)
    ensures
        match r {
            Ok(DiscFormat::BluRay) => bd.finds_bluray(),
            Ok(DiscFormat::Dvd) => !bd.finds_bluray() && dvd is Ifo,
            Err(message) => !bd.finds_bluray() && !(dvd is Ifo) && message@ == no_disc_text(path@),
        },
{
    if bd.is_bluray() {
        return Ok(DiscFormat::BluRay);
    }
    match dvd {
        DvdProbe::Ifo => Ok(DiscFormat::Dvd),
        _ => {
            let mut message = "No Blu-ray or DVD video disc detected at '".to_owned();
            message.append(path);
            message.append("'");
            Err(message)
        },
    }
}

/// A Blu-ray disc is found where the library says of a path that it holds one, and
/// nowhere else.
pub proof fn blurays_are_found_where_they_are_detected(probe: BdProbe)
    ensures
        probe is NotOpened ==> !probe.finds_bluray(),
        probe is NoInfo ==> !probe.finds_bluray(),
        probe matches BdProbe::Info { bluray_detected } ==> (probe.finds_bluray()
            <==> bluray_detected > 0),
{
}

} // verus!
