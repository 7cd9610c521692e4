//! The command line: what the words after the program's name ask for.

use vstd::prelude::*;

verus! {

/// What the program is asked to do.
#[derive(Debug)]
pub enum AppMode<'a> {
    /// Work on the one mod with this id.
    SingleId(String),
    /// Work on the mods listed in the file at this path.
    IdFromFile(&'a str),
    /// Empty the mod folder.
    ClearMods,
    /// Show how the program is used.
    Help,
}

/// Mathematical value of an [`AppMode`].
pub enum ModeView {
    SingleId(Seq<char>),
    IdFromFile(Seq<char>),
    ClearMods,
    Help,
}

impl<'a> View for AppMode<'a> {
    type V = ModeView;

    open spec fn view(&self) -> ModeView {
        match *self {
            AppMode::SingleId(id) => ModeView::SingleId(id@),
            AppMode::IdFromFile(path) => ModeView::IdFromFile(path@),
            AppMode::ClearMods => ModeView::ClearMods,
            AppMode::Help => ModeView::Help,
        }
    }
}

impl<'a> DeepView for AppMode<'a> {
    type V = ModeView;

    open spec fn deep_view(&self) -> ModeView {
        self.view()
    }
}

/// The mod loader that versions are asked for.
#[derive(Clone, Copy, Debug, PartialEq, Eq)]
pub enum Loader {
    Fabric,
    Neoforge,
    Forge,
}

/// The name under which the registry knows a loader.
pub open spec fn loader_name(loader: Loader) -> Seq<char> {
    match loader {
        Loader::Fabric => "fabric"@,
        Loader::Neoforge => "neoforge"@,
        Loader::Forge => "forge"@,
    }
}

/// The loader that goes by `name`, if there is one.
pub open spec fn loader_named(name: Seq<char>) -> Option<Loader> {
    if name == "fabric"@ {
        Some(Loader::Fabric)
    } else if name == "neoforge"@ {
        Some(Loader::Neoforge)
    } else if name == "forge"@ {
        Some(Loader::Forge)
    } else {
        None
    }
}

/// Mathematical value of [`Options`].
pub struct OptionsView {
    pub verify: bool,
    pub skip_deps: bool,
}

/// The switches of a run.
#[derive(Debug)]
pub struct Options {
    verify: bool,
    skip_deps: bool,
}

impl View for Options {
    type V = OptionsView;

    closed spec fn view(&self) -> OptionsView {
        OptionsView { verify: self.verify, skip_deps: self.skip_deps }
    }
}

impl Options {
    pub fn new() -> (res: Self)
        ensures
            res@ == (OptionsView { verify: false, skip_deps: false }),
    {
        let verify = false;
        let skip_deps = false;
        Options { verify, skip_deps }
    }

    pub fn set_verify(&mut self, new: bool)
        ensures
            final(self)@ == (OptionsView { verify: new, skip_deps: old(self)@.skip_deps }),
    {
        self.verify = new;
    }

    pub fn set_skip_deps(&mut self, new: bool)
        ensures
            final(self)@ == (OptionsView { verify: old(self)@.verify, skip_deps: new }),
    {
        self.skip_deps = new;
    }

    pub fn get_verify(&self) -> (res: bool)
        ensures
            res == self@.verify,
    {
        self.verify
    }

    pub fn get_skip_deps(&self) -> (res: bool)
        ensures
            res == self@.skip_deps,
    {
        self.skip_deps
    }
}

/// Mathematical value of a [`Config`].
pub struct ConfigView {
    pub mode: ModeView,
    pub ops: OptionsView,
    pub mcvs: Seq<char>,
    pub loader: Loader,
    pub out_dir: Option<Seq<char>>,
}

/// What a command line asks for, once it is read.
#[derive(Debug)]
pub struct Config<'a> {
    mode: AppMode<'a>,
    ops: Options,
    mcvs: String,
    loader: Loader,
    out_dir: Option<&'a str>,
}

/// What is known while a command line is read, word by word.
pub struct Scan {
    pub mode: Option<ModeView>,
    pub ops: OptionsView,
    pub mcvs: Option<Seq<char>>,
    pub loader: Loader,
    pub out_dir: Option<Seq<char>>,
}

/// What is known before the first word is read.
pub open spec fn scan_start() -> Scan {
    Scan {
        mode: None,
        ops: OptionsView { verify: false, skip_deps: false },
        mcvs: None,
        loader: Loader::Fabric,
        out_dir: None,
    }
}

/// Reads the words of `args` from position `at` on. A word that takes a
/// value takes the word after it, whatever that word is; one that finds no
/// word after it ends the reading with an error, and so does a loader that
/// is not known. A word that means nothing is passed over.
pub open spec fn scan_from(args: Seq<Seq<char>>, at: int, st: Scan) -> Result<Scan, Seq<char>>
    decreases args.len() - at,
{
    if at < 0 || at >= args.len() {
        Ok(st)
    } else {
        let word = args[at];
        let value = if at + 1 < args.len() {
            Some(args[at + 1])
        } else {
            None
        };
        if word == "-id"@ {
            match value {
                Some(v) => scan_from(
                    args,
                    at + 2,
                    Scan { mode: Some(ModeView::SingleId(v)), ..st },
                ),
                None => Err("Invalid ID"@),
            }
        } else if word == "--readfile"@ {
            match value {
                Some(v) => scan_from(
                    args,
                    at + 2,
                    Scan { mode: Some(ModeView::IdFromFile(v)), ..st },
                ),
                None => Err("Invalid filename"@),
            }
        } else if word == "-mcv"@ {
            match value {
                Some(v) => scan_from(args, at + 2, Scan { mcvs: Some(v), ..st }),
                None => Err("Invalid mcv"@),
            }
        } else if word == "-l"@ {
            match value {
                Some(v) => match loader_named(v) {
                    Some(loader) => scan_from(args, at + 2, Scan { loader, ..st }),
                    None => Err("Invalid loader"@),
                },
                None => Err("Invalid loader"@),
            }
        } else if word == "-o"@ {
            match value {
                Some(v) => scan_from(args, at + 2, Scan { out_dir: Some(v), ..st }),
                None => Err("Invalid output directory"@),
            }
        } else if word == "clearmods"@ {
            scan_from(args, at + 1, Scan { mode: Some(ModeView::ClearMods), ..st })
        } else if word == "checkmods"@ {
            scan_from(
                args,
                at + 1,
                Scan { ops: OptionsView { verify: true, skip_deps: st.ops.skip_deps }, ..st },
            )
        } else if word == "--skipdeps"@ {
            scan_from(
                args,
                at + 1,
                Scan { ops: OptionsView { verify: st.ops.verify, skip_deps: true }, ..st },
            )
        } else if word == "-h"@ || word == "--help"@ || word == "-help"@ {
            scan_from(args, at + 1, Scan { mode: Some(ModeView::Help), ..st })
        } else {
            scan_from(args, at + 1, st)
        }
    }
}

/// What a read command line amounts to. A mode is needed; a game version is
/// needed too, unless the mode is to clear the folder or to show the help.
pub open spec fn concluded(st: Scan) -> Result<ConfigView, Seq<char>> {
    match st.mode {
        None => Err("No ID specified"@),
        Some(mode) => {
            let mcvs = match mode {
                ModeView::ClearMods => Ok::<Seq<char>, Seq<char>>(Seq::empty()),
                ModeView::Help => Ok(Seq::empty()),
                _ => match st.mcvs {
                    Some(v) => Ok(v),
                    None => Err("No mc version specified"@),
                },
            };
            match mcvs {
                Ok(mcvs) => Ok(
                    ConfigView { mode, ops: st.ops, mcvs, loader: st.loader, out_dir: st.out_dir },
                ),
                Err(why) => Err(why),
            }
        },
    }
}

/// The meaning of a command line. Its first word is the program's name and
/// says nothing.
pub open spec fn parsed(args: Seq<Seq<char>>) -> Result<ConfigView, Seq<char>> {
    match scan_from(args, 1, scan_start()) {
        Ok(st) => concluded(st),
        Err(why) => Err(why),
    }
}

impl<'a> View for Config<'a> {
    type V = ConfigView;

    closed spec fn view(&self) -> ConfigView {
        ConfigView {
            mode: self.mode@,
            ops: self.ops@,
            mcvs: self.mcvs@,
            loader: self.loader,
            out_dir: match self.out_dir {
                Some(dir) => Some(dir@),
                None => None,
            },
        }
    }
}

impl<'a> Config<'a> {
    /// Reads a command line. Fails with the reason in words where a value
    /// is missing, a loader is unknown, no mode is given, or a mode that
    /// queries the registry comes without a game version.
    pub fn build_from_args(args: &'a Vec<String>) -> (res: Result<Config<'a>, &'static str>)
        ensures
            match parsed(args.deep_view()) {
                Ok(conf) => res matches Ok(c) && c@ == conf,
                Err(why) => res matches Err(msg) && msg@ == why,
            },
    {
        let mut mode: Option<AppMode<'a>> = None;
        let mut ops: Options = Options::new();
        let mut mcvs: Option<String> = None;
        let mut loader: Loader = Loader::Fabric;
        let mut out_dir: Option<&'a str> = None;
        let ghost words = args.deep_view();
        let ghost mut st = scan_start();
        let mut i: usize = 1;
        while i < args.len()
            invariant
                1 <= i,
                words == args.deep_view(),
                scan_from(words, i as int, st) == scan_from(words, 1, scan_start()),
                st.mode == mode.deep_view(),
                st.ops == ops@,
                st.mcvs == mcvs.deep_view(),
                st.loader == loader,
                st.out_dir == match out_dir {
                    Some(dir) => Some(dir@),
                    None => None,
                },
            decreases args.len() - i,
        {
            let arg = args[i].as_str();
            assert(arg@ == words[i as int]);
            let value: Option<&'a String> = if i + 1 < args.len() {
                Some(&args[i + 1])
            } else {
                None
            };
            assert(value matches Some(v) ==> v@ == words[i + 1]);
            if arg.eq("-id") {
                mode = Some(get_id_mode(value)?);
                proof {
                    st = Scan { mode: mode.deep_view(), ..st };
                }
                i += 2;
            } else if arg.eq("--readfile") {
                mode = Some(get_file_mode(value)?);
                proof {
                    st = Scan { mode: mode.deep_view(), ..st };
                }
                i += 2;
            } else if arg.eq("-mcv") {
                mcvs = Some(get_mcvs(value)?);
                proof {
                    st = Scan { mcvs: mcvs.deep_view(), ..st };
                }
                i += 2;
            } else if arg.eq("-l") {
                loader = get_loader(value)?;
                proof {
                    st = Scan { loader, ..st };
                }
                i += 2;
            } else if arg.eq("-o") {
                out_dir = Some(get_out_dir(value)?);
                proof {
                    st = Scan { out_dir: Some(value->0@), ..st };
                }
                i += 2;
            } else if arg.eq("clearmods") {
                mode = Some(AppMode::ClearMods);
                proof {
                    st = Scan { mode: Some(ModeView::ClearMods), ..st };
                }
                i += 1;
            } else if arg.eq("checkmods") {
                ops.set_verify(true);
                proof {
                    st = Scan { ops: ops@, ..st };
                }
                i += 1;
            } else if arg.eq("--skipdeps") {
                ops.set_skip_deps(true);
                proof {
                    st = Scan { ops: ops@, ..st };
                }
                i += 1;
            } else if arg.eq("-h") || arg.eq("--help") || arg.eq("-help") {
                mode = Some(AppMode::Help);
                proof {
                    st = Scan { mode: Some(ModeView::Help), ..st };
                }
                i += 1;
            } else {
                i += 1;
            }
        }
        let mode = match mode {
            Some(mode) => mode,
            None => {
                return Err("No ID specified");
            },
        };
        let mcvs = match mode {
            AppMode::ClearMods => String::new(),
            AppMode::Help => String::new(),
            _ => match mcvs {
                Some(mcvs) => mcvs,
                None => {
                    return Err("No mc version specified");
                },
            },
        };
        Ok(Config { mode, ops, mcvs, loader, out_dir })
    }

    pub fn mode(&self) -> (res: &AppMode<'a>)
        ensures
            res@ == self@.mode,
    {
        &self.mode
    }

    pub fn options(&self) -> (res: &Options)
        ensures
            res@ == self@.ops,
    {
        &self.ops
    }

    pub fn mcvs(&self) -> (res: &String)
        ensures
            res@ == self@.mcvs,
    {
        &self.mcvs
    }

    pub fn loader(&self) -> (res: &Loader)
        ensures
            *res == self@.loader,
    {
        &self.loader
    }

    pub fn out_dir(&self) -> (res: &Option<&'a str>)
        ensures
            match *res {
                Some(dir) => self@.out_dir == Some(dir@),
                None => self@.out_dir is None,
            },
    {
        &self.out_dir
    }

    pub fn loader_as_str(&self) -> (res: &str)
        ensures
            res@ == loader_name(self@.loader),
    {
        match self.loader {
            Loader::Fabric => "fabric",
            Loader::Neoforge => "neoforge",
            Loader::Forge => "forge",
        }
    }

    pub fn loader_as_string(&self) -> (res: String)
        ensures
            res@ == loader_name(self@.loader),
    {
        match self.loader {
            Loader::Fabric => "fabric".to_owned(),
            Loader::Neoforge => "neoforge".to_owned(),
            Loader::Forge => "forge".to_owned(),
        }
    }
}

/// The game versions that follow `-mcv`.
fn get_mcvs(mcvs: Option<&String>) -> (res: Result<String, &'static str>)
    ensures
        match mcvs {
            Some(v) => res matches Ok(s) && s@ == v@,
            None => res matches Err(msg) && msg@ == "Invalid mcv"@,
        },
{
    match mcvs {
        Some(v) => Ok(v.clone()),
        None => Err("Invalid mcv"),
    }
}

/// The loader that follows `-l`.
fn get_loader(loader: Option<&String>) -> (res: Result<Loader, &'static str>)
    ensures
        match loader {
            Some(v) => match loader_named(v@) {
                Some(l) => res == Ok::<Loader, &'static str>(l),
                None => res matches Err(msg) && msg@ == "Invalid loader"@,
            },
            None => res matches Err(msg) && msg@ == "Invalid loader"@,
        },
{
    match loader {
        Some(v) => {
            let name = v.as_str();
            if name.eq("fabric") {
                Ok(Loader::Fabric)
            } else if name.eq("neoforge") {
                Ok(Loader::Neoforge)
            } else if name.eq("forge") {
                Ok(Loader::Forge)
            } else {
                Err("Invalid loader")
            }
        },
        None => Err("Invalid loader"),
    }
}

/// The mode that `-id` and the word after it ask for.
fn get_id_mode<'a>(id: Option<&'a String>) -> (res: Result<AppMode<'a>, &'static str>)
    ensures
        match id {
            Some(v) => res matches Ok(mode) && mode@ == ModeView::SingleId(v@),
            None => res matches Err(msg) && msg@ == "Invalid ID"@,
        },
{
    match id {
        Some(v) => Ok(AppMode::SingleId(v.clone())),
        None => Err("Invalid ID"),
    }
}

/// The mode that `--readfile` and the word after it ask for.
fn get_file_mode<'a>(file: Option<&'a String>) -> (res: Result<AppMode<'a>, &'static str>)
    ensures
        match file {
            Some(v) => res matches Ok(mode) && mode@ == ModeView::IdFromFile(v@),
            None => res matches Err(msg) && msg@ == "Invalid filename"@,
        },
{
    match file {
        Some(v) => Ok(AppMode::IdFromFile(v.as_str())),
        None => Err("Invalid filename"),
    }
}

/// The folder that follows `-o`.
fn get_out_dir<'a>(file: Option<&'a String>) -> (res: Result<&'a str, &'static str>)
    ensures
        match file {
            Some(f) => res matches Ok(dir) && dir@ == f@,
            None => res matches Err(msg) && msg@ == "Invalid output directory"@,
        },
{
    match file {
        Some(f) => Ok(f.as_str()),
        None => Err("Invalid output directory"),
    }
}

} // verus!
