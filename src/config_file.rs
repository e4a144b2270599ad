//! The values that a configuration line describes.

use std::ops::Deref;
use std::ops::Range;
use vstd::prelude::*;

use crate::duration::Duration;

verus! {

#[derive(Debug, PartialEq, Eq, Structural, Copy, Clone)]
pub enum LineAction {
    CreateFile,
    WriteFile,
    CreateAndCleanUpDirectory,
    CreateAndRemoveDirectory,
    CleanUpDirectory,
    CreateFifo,
    CreateSymlink,
    CreateCharDevice,
    CreateBlockDevice,
    Copy,
    Ignore,
    IgnoreNonRecursive,
    Remove,
    RemoveRecursive,
    SetMode,
    SetModeRecursive,
    SetXattr,
    SetXattrRecursive,
    SetAttr,
    SetAttrRecursive,
    SetAcl,
    SetAclRecursive,
}

#[derive(Debug, PartialEq, Eq, Structural, Copy, Clone)]
pub struct LineType {
    /// Basic action, represented by first character
    pub action: LineAction,
    /// Plus sign modifier, means recreate except for write
    pub recreate: bool,
    /// Exclamation mark modifier, should only be run during boot
    pub boot: bool,
    /// Minus sign modifier, means failure during create will not error
    pub noerror: bool,
    /// Equals sign modifier, remove existing objects if they do not match
    pub force: bool,
}

#[derive(Debug, PartialEq, Eq, Clone)]
pub enum FileOwner {
    Id(u32),
    Name(String),
}

#[derive(Debug, PartialEq, Eq, Structural, Copy, Clone)]
pub struct CleanupAge {
    /// Minimum age before cleaning up
    pub age: Duration,
    /// Only cleanup directories at the second level and below the root path
    pub second_level: bool,
    /// Consider the atime (last access) as last use for files
    pub consider_atime: bool,
    /// Consider the atime (last access) as last use for directories
    pub consider_atime_dir: bool,
    /// Consider the btime (creation) as last use for files
    pub consider_btime: bool,
    /// Consider the btime (creation) as last use for directories
    pub consider_btime_dir: bool,
    /// Consider the ctime (last status change) as last use for files
    pub consider_ctime: bool,
    /// Consider the ctime (last status change) as last use for directories
    pub consider_ctime_dir: bool,
    /// Consider the mtime (last modification) as last use for files
    pub consider_mtime: bool,
    /// Consider the mtime (last modification) as last use for directories
    pub consider_mtime_dir: bool,
}

/// The settings of an age field without a list of timestamps: every
/// timestamp counts but the status change of directories, with no age.
pub open spec fn empty_cleanup_age() -> CleanupAge {
    CleanupAge {
        age: Duration { nanos: 0 },
        second_level: false,
        consider_atime: true,
        consider_atime_dir: true,
        consider_btime: true,
        consider_btime_dir: true,
        consider_ctime: true,
        consider_ctime_dir: false,
        consider_mtime: true,
        consider_mtime_dir: true,
    }
}

impl CleanupAge {
    /// The settings of an age field without a list of timestamps.
    pub fn empty() -> (r: CleanupAge)
        ensures
            r == empty_cleanup_age(),
    {
        CleanupAge {
            age: Duration { nanos: 0 },
            second_level: false,
            consider_atime: true,
            consider_atime_dir: true,
            consider_btime: true,
            consider_btime_dir: true,
            consider_ctime: true,
            consider_ctime_dir: false,
            consider_mtime: true,
            consider_mtime_dir: true,
        }
    }
}

impl Default for CleanupAge {
    /// No timestamp counts, no age.
    fn default() -> (r: CleanupAge)
        ensures
            r == (CleanupAge {
                age: Duration { nanos: 0 },
                second_level: false,
                consider_atime: false,
                consider_atime_dir: false,
                consider_btime: false,
                consider_btime_dir: false,
                consider_ctime: false,
                consider_ctime_dir: false,
                consider_mtime: false,
                consider_mtime_dir: false,
            }),
    {
        CleanupAge {
            age: Duration { nanos: 0 },
            second_level: false,
            consider_atime: false,
            consider_atime_dir: false,
            consider_btime: false,
            consider_btime_dir: false,
            consider_ctime: false,
            consider_ctime_dir: false,
            consider_mtime: false,
            consider_mtime_dir: false,
        }
    }
}

/// A value together with the file it was read from, given by the bytes of
/// its path, and the range of characters it covers there.
#[derive(Debug, PartialEq, Eq)]
pub struct Spanned<'a, T> {
    pub data: T,
    pub file: &'a [u8],
    pub characters: Range<usize>,
}

impl<'a, T> Spanned<'a, T> {
    pub fn new(data: T, file: &'a [u8], characters: Range<usize>) -> (r: Self)
        ensures
            r.data == data,
            r.file == file,
            r.characters == characters,
    {
        Self { data, file, characters }
    }

    /// Replaces the value by what `closure` makes of it, keeping the span.
    pub fn map<U>(self, closure: impl FnOnce(T) -> U) -> (r: Spanned<'a, U>)
        requires
            closure.requires((self.data,)),
        ensures
            closure.ensures((self.data,), r.data),
            r.file == self.file,
            r.characters == self.characters,
    {
        Spanned { data: closure(self.data), file: self.file, characters: self.characters }
    }

    /// Replaces the value by what `closure` makes of it, keeping the span,
    /// or passes on the error that `closure` gives.
    pub fn try_map<U, E>(self, closure: impl FnOnce(T) -> Result<U, E>) -> (r: Result<
        Spanned<'a, U>,
        E,
    >)
        requires
            closure.requires((self.data,)),
        ensures
            match r {
                Ok(s) => closure.ensures((self.data,), Ok(s.data)) && s.file == self.file
                    && s.characters == self.characters,
                Err(e) => closure.ensures((self.data,), Err(e)),
            },
    {
        match closure(self.data) {
            Ok(data) => Ok(Spanned { data, file: self.file, characters: self.characters }),
            Err(e) => Err(e),
        }
    }

    pub(crate) fn as_deref(&self) -> (r: Spanned<'a, &T::Target>) where T: Deref
        ensures
            r.file == self.file,
            r.characters == self.characters,
    {
        Spanned {
            data: self.data.deref(),
            file: self.file,
            characters: self.characters.start..self.characters.end,
        }
    }

    pub(crate) fn as_ref(&self) -> (r: Spanned<'a, &T>)
        ensures
            *r.data == self.data,
            r.file == self.file,
            r.characters == self.characters,
    {
        Spanned {
            data: &self.data,
            file: self.file,
            characters: self.characters.start..self.characters.end,
        }
    }
}

impl<'a, T, U> Spanned<'a, (T, U)> {
    /// Splits a pair into two values with the same span.
    pub fn unzip(self) -> (r: (Spanned<'a, T>, Spanned<'a, U>))
        ensures
            r.0.data == self.data.0,
            r.1.data == self.data.1,
            r.0.file == self.file,
            r.1.file == self.file,
            r.0.characters == self.characters,
            r.1.characters == self.characters,
    {
        (
            Spanned {
                data: self.data.0,
                file: self.file,
                characters: self.characters.start..self.characters.end,
            },
            Spanned { data: self.data.1, file: self.file, characters: self.characters },
        )
    }
}

impl<'a, T> Spanned<'a, Option<T>> {
    /// Runs `closure` on a present value and keeps what it gives, present or not.
    pub fn try_then<U, E>(self, closure: impl FnOnce(T) -> Result<Option<U>, E>) -> (r: Result<
        Spanned<'a, Option<U>>,
        E,
    >)
        requires
            self.data matches Some(d) ==> closure.requires((d,)),
        ensures
            match self.data {
                None => r == Ok::<Spanned<'a, Option<U>>, E>(
                    Spanned { data: None, file: self.file, characters: self.characters },
                ),
                Some(d) => match r {
                    Ok(s) => closure.ensures((d,), Ok(s.data)) && s.file == self.file
                        && s.characters == self.characters,
                    Err(e) => closure.ensures((d,), Err(e)),
                },
            },
    {
        let data = match self.data {
            None => None,
            Some(d) => match closure(d) {
                Ok(v) => v,
                Err(e) => {
                    return Err(e);
                },
            },
        };
        Ok(Spanned { data, file: self.file, characters: self.characters })
    }

    /// Runs `closure` on a present value, keeping the span.
    pub fn opt_map<U>(self, closure: impl FnOnce(T) -> U) -> (r: Spanned<'a, Option<U>>)
        requires
            self.data matches Some(d) ==> closure.requires((d,)),
        ensures
            r.file == self.file,
            r.characters == self.characters,
            match self.data {
                None => r.data is None,
                Some(d) => r.data matches Some(v) && closure.ensures((d,), v),
            },
    {
        let data = match self.data {
            None => None,
            Some(d) => Some(closure(d)),
        };
        Spanned { data, file: self.file, characters: self.characters }
    }

    /// Runs `closure` on a present value, keeping the span, or passes on its error.
    pub fn try_opt_map<U, E>(self, closure: impl FnOnce(T) -> Result<U, E>) -> (r: Result<
        Spanned<'a, Option<U>>,
        E,
    >)
        requires
            self.data matches Some(d) ==> closure.requires((d,)),
        ensures
            match self.data {
                None => r == Ok::<Spanned<'a, Option<U>>, E>(
                    Spanned { data: None, file: self.file, characters: self.characters },
                ),
                Some(d) => match r {
                    Ok(s) => s.data matches Some(v) && closure.ensures((d,), Ok(v))
                        && s.file == self.file && s.characters == self.characters,
                    Err(e) => closure.ensures((d,), Err(e)),
                },
            },
    {
        let data = match self.data {
            None => None,
            Some(d) => match closure(d) {
                Ok(v) => Some(v),
                Err(e) => {
                    return Err(e);
                },
            },
        };
        Ok(Spanned { data, file: self.file, characters: self.characters })
    }

    /// Borrows the present value through `Deref`, keeping the span.
    pub fn as_opt_deref(&self) -> (r: Spanned<'a, Option<&T::Target>>) where T: Deref
        ensures
            r.data is Some <==> self.data is Some,
            r.file == self.file,
            r.characters == self.characters,
    {
        let data = match &self.data {
            None => None,
            Some(d) => Some(d.deref()),
        };
        Spanned {
            data,
            file: self.file,
            characters: self.characters.start..self.characters.end,
        }
    }
}

#[derive(Debug, PartialEq, Eq, Structural, Clone)]
pub struct Mode {
    pub value: u32,
    pub mode_behavior: ModeBehavior,
}

#[derive(Debug, PartialEq, Eq, Structural, Clone)]
pub enum ModeBehavior {
    Default,
    /// If prefixed with a tilde, mask value with existing mode
    Masked,
    /// If prefixed with a colon, keep existing mode if file exists
    KeepExisting,
}

impl Default for ModeBehavior {
    fn default() -> (r: ModeBehavior)
        ensures
            r == ModeBehavior::Default,
    {
        ModeBehavior::Default
    }
}

/// One line of configuration, each field with its span.
#[derive(Debug, PartialEq, Eq)]
pub struct Line<'a> {
    pub line_type: Spanned<'a, LineType>,
    pub path: Spanned<'a, SpecifierString>,
    pub mode: Spanned<'a, Option<Mode>>,
    pub owner: Spanned<'a, Option<FileOwner>>,
    pub group: Spanned<'a, Option<FileOwner>>,
    pub age: Spanned<'a, Option<CleanupAge>>,
    pub argument: Spanned<'a, Option<Vec<u8>>>,
}

#[derive(Debug, PartialEq, Eq, Structural, Copy, Clone)]
pub enum Specifier {
    /// `%a`
    Architecture,
    /// `%A`
    ImageVersion,
    /// `%b`
    BootID,
    /// `%B`
    BuildID,
    /// `%C`
    CacheDir,
    /// `%g`
    UserGroup,
    /// `%G`
    UserGID,
    /// `%h`
    UserHome,
    /// `%H`
    Hostname,
    /// `%l`
    ShortHostname,
    /// `%L`
    LogDir,
    /// `%m`
    MachineID,
    /// `%M`
    ImageID,
    /// `%o`
    OperatingSystemID,
    /// `%S`
    StateDir,
    /// `%T`
    RuntimeDir,
    /// `%t`
    TempDir,
    /// `%u`
    Username,
    /// `%U`
    UserUID,
    /// `%v`
    KernelRelease,
    /// `%V`
    PersistentTempDir,
    /// `%w`
    VersionID,
    /// `%W`
    VariantID,
    /// `%%`
    PercentSign,
}

/// The specifier that `%` followed by `ch` stands for, if any.
pub open spec fn specifier_of(ch: u8) -> Option<Specifier> {
    if ch == 0x61 {
        Some(Specifier::Architecture)
    } else if ch == 0x41 {
        Some(Specifier::ImageVersion)
    } else if ch == 0x62 {
        Some(Specifier::BootID)
    } else if ch == 0x42 {
        Some(Specifier::BuildID)
    } else if ch == 0x43 {
        Some(Specifier::CacheDir)
    } else if ch == 0x67 {
        Some(Specifier::UserGroup)
    } else if ch == 0x47 {
        Some(Specifier::UserGID)
    } else if ch == 0x68 {
        Some(Specifier::UserHome)
    } else if ch == 0x48 {
        Some(Specifier::Hostname)
    } else if ch == 0x6c {
        Some(Specifier::ShortHostname)
    } else if ch == 0x4c {
        Some(Specifier::LogDir)
    } else if ch == 0x6d {
        Some(Specifier::MachineID)
    } else if ch == 0x4d {
        Some(Specifier::ImageID)
    } else if ch == 0x6f {
        Some(Specifier::OperatingSystemID)
    } else if ch == 0x53 {
        Some(Specifier::StateDir)
    } else if ch == 0x74 {
        Some(Specifier::TempDir)
    } else if ch == 0x54 {
        Some(Specifier::RuntimeDir)
    } else if ch == 0x75 {
        Some(Specifier::Username)
    } else if ch == 0x55 {
        Some(Specifier::UserUID)
    } else if ch == 0x76 {
        Some(Specifier::KernelRelease)
    } else if ch == 0x56 {
        Some(Specifier::PersistentTempDir)
    } else if ch == 0x77 {
        Some(Specifier::VersionID)
    } else if ch == 0x57 {
        Some(Specifier::VariantID)
    } else if ch == 0x25 {
        Some(Specifier::PercentSign)
    } else {
        None
    }
}

impl Specifier {
    /// Reads the character that follows a `%`.
    pub fn parse(ch: u8) -> (r: Option<Self>)
        ensures
            r == specifier_of(ch),
    {
        match ch {
            0x61 => Some(Specifier::Architecture), // 'a'
            0x41 => Some(Specifier::ImageVersion), // 'A'
            0x62 => Some(Specifier::BootID), // 'b'
            0x42 => Some(Specifier::BuildID), // 'B'
            0x43 => Some(Specifier::CacheDir), // 'C'
            0x67 => Some(Specifier::UserGroup), // 'g'
            0x47 => Some(Specifier::UserGID), // 'G'
            0x68 => Some(Specifier::UserHome), // 'h'
            0x48 => Some(Specifier::Hostname), // 'H'
            0x6c => Some(Specifier::ShortHostname), // 'l'
            0x4c => Some(Specifier::LogDir), // 'L'
            0x6d => Some(Specifier::MachineID), // 'm'
            0x4d => Some(Specifier::ImageID), // 'M'
            0x6f => Some(Specifier::OperatingSystemID), // 'o'
            0x53 => Some(Specifier::StateDir), // 'S'
            0x74 => Some(Specifier::TempDir), // 't'
            0x54 => Some(Specifier::RuntimeDir), // 'T'
            0x75 => Some(Specifier::Username), // 'u'
            0x55 => Some(Specifier::UserUID), // 'U'
            0x76 => Some(Specifier::KernelRelease), // 'v'
            0x56 => Some(Specifier::PersistentTempDir), // 'V'
            0x77 => Some(Specifier::VersionID), // 'w'
            0x57 => Some(Specifier::VariantID), // 'W'
            0x25 => Some(Specifier::PercentSign), // '%'
            _ => None,
        }
    }
}

/// A path: the bytes before the first specifier, then each specifier with
/// the bytes that follow it up to the next one.
#[derive(Debug, PartialEq, Eq, Clone)]
pub struct SpecifierString(pub Vec<u8>, pub Vec<(Specifier, Vec<u8>)>);

/// Each specifier with the bytes that follow it, as sequences.
pub open spec fn sections_view(sections: Seq<(Specifier, Vec<u8>)>) -> Seq<(Specifier, Seq<u8>)> {
    sections.map_values(|p: (Specifier, Vec<u8>)| (p.0, p.1@))
}

impl View for SpecifierString {
    /// The prefix, and each specifier with the bytes that follow it.
    type V = (Seq<u8>, Seq<(Specifier, Seq<u8>)>);

    open spec fn view(&self) -> (Seq<u8>, Seq<(Specifier, Seq<u8>)>) {
        (self.0@, sections_view(self.1@))
    }
}

} // verus!
