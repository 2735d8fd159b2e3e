//! What the command line asks for.
use vstd::prelude::*;

verus! {

/// The shell initialization file to write.
pub struct ShellRc<'a> {
    /// The shell the file is for.
    pub shell: Option<&'a str>,
    /// Where the file is written.
    pub output_rc: Option<String>,
}

/// The options given on the command line.
pub struct Settings<'a> {
    pub no_args: bool,
    pub help: bool,
    pub no_color: bool,
    pub dry_run: bool,
    pub verbose: u32,
    pub version: bool,
    pub export: Option<&'a str>,
    pub import: Option<&'a str>,
    pub set_variable: Option<(&'a str, &'a str)>,
    pub system: bool,
    pub shell_rc: ShellRc<'a>,
}

/// The options, as values.
pub struct SettingsModel {
    pub no_args: bool,
    pub help: bool,
    pub no_color: bool,
    pub dry_run: bool,
    pub verbose: u32,
    pub version: bool,
    pub export: Option<Seq<char>>,
    pub import: Option<Seq<char>>,
    pub shell: Option<Seq<char>>,
    pub output_rc: Option<Seq<char>>,
}

pub open spec fn str_view(o: Option<&str>) -> Option<Seq<char>> {
    match o {
        Some(s) => Some(s@),
        None => None,
    }
}

pub open spec fn string_view(o: Option<String>) -> Option<Seq<char>> {
    match o {
        Some(s) => Some(s@),
        None => None,
    }
}

impl<'a> Settings<'a> {
    /// The options as values.
    pub open spec fn model(&self) -> SettingsModel {
        SettingsModel {
            no_args: self.no_args,
            help: self.help,
            no_color: self.no_color,
            dry_run: self.dry_run,
            verbose: self.verbose,
            version: self.version,
            export: str_view(self.export),
            import: str_view(self.import),
            shell: str_view(self.shell_rc.shell),
            output_rc: string_view(self.shell_rc.output_rc),
        }
    }
}

} // verus!
