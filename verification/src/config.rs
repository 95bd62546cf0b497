use vstd::prelude::*;
use vstd::string::StringExecFns;

verus! {

/// The settled configuration: which icon theme the front end uses.
#[derive(Debug)]
pub struct Config {
    pub icon_theme: String,
}

/// The design section of one configuration file.
#[derive(Debug)]
pub struct DesignConfigFile {
    pub icon_theme: Option<String>,
}

impl Default for DesignConfigFile {
    /// An empty design section: nothing set.
    fn default() -> (r: Self)
        ensures
            r.icon_theme is None,
    {
        DesignConfigFile { icon_theme: None }
    }
}

/// One configuration file, as read from disk.
#[derive(Debug)]
pub struct ConfigFile {
    pub design: DesignConfigFile,
}

impl Default for ConfigFile {
    /// An empty configuration file: nothing set.
    fn default() -> (r: Self)
        ensures
            r.design.icon_theme is None,
    {
        ConfigFile { design: DesignConfigFile { icon_theme: None } }
    }
}

impl ConfigFile {
    /// Lay `other` over this file: every value that `other` sets wins, every
    /// value it leaves unset stays as it was.
    pub fn update(&mut self, other: Self)
        ensures
            final(self).design.icon_theme == (match other.design.icon_theme {
                Some(t) => Some(t),
                None => old(self).design.icon_theme,
            }),
    {
        Self::update_field(&mut self.design.icon_theme, other.design.icon_theme);
    }

    /// Overwrite `current` with `incoming` only when `incoming` holds a value.
    pub fn update_field<T: PartialEq>(current: &mut Option<T>, incoming: Option<T>)
        ensures
            *final(current) == (match incoming {
                Some(t) => Some(t),
                None => *old(current),
            }),
    {
        if let Some(t) = incoming {
            *current = Some(t);
        }
    }
}

/// The theme that the last file to set one names, if any file does.
pub open spec fn spec_last_set_theme(files: Seq<ConfigFile>) -> Option<Seq<char>>
    decreases files.len(),
{
    if files.len() == 0 {
        None
    } else {
        match files.last().design.icon_theme {
            Some(t) => Some(t@),
            None => spec_last_set_theme(files.drop_last()),
        }
    }
}

/// The icon theme that a stack of configuration files settles on: the last
/// file that sets one wins, and with none set the theme is `"default"`.
pub open spec fn spec_merged_theme(files: Seq<ConfigFile>) -> Seq<char> {
    match spec_last_set_theme(files) {
        Some(t) => t,
        None => "default"@,
    }
}

impl Config {
    /// Settle the configuration from the files read, in the order they were
    /// read, with a command-line theme overriding them all.
    pub fn from_sources(files: Vec<ConfigFile>, cli_theme: Option<String>) -> (r: Config)
        ensures
            r.icon_theme@ == (match cli_theme {
                Some(t) => t@,
                None => spec_merged_theme(files@),
            }),
    {
        let ghost all = files@;
        let mut rest = files;
        let total = rest.len();
        let mut merged = ConfigFile::default();
        let mut done: usize = 0;
        proof {
            assert(all.take(0) =~= Seq::<ConfigFile>::empty());
        }
        while rest.len() > 0
            invariant
                all.len() == total,
                done + rest@.len() == all.len(),
                rest@ =~= all.skip(done as int),
                (match merged.design.icon_theme {
                    Some(t) => Some(t@),
                    None => None,
                }) == spec_last_set_theme(all.take(done as int)),
            decreases rest@.len(),
        {
            let file = rest.remove(0);
            proof {
                assert(file == all[done as int]);
                assert(all.take(done as int + 1).drop_last() =~= all.take(done as int));
                assert(all.take(done as int + 1).last() == all[done as int]);
            }
            merged.update(file);
            done = done + 1;
            proof {
                assert(rest@ =~= all.skip(done as int));
            }
        }
        proof {
            assert(all.take(done as int) =~= all);
        }
        match cli_theme {
            Some(t) => Config { icon_theme: t },
            None => match merged.design.icon_theme {
                Some(t) => Config { icon_theme: t },
                None => Config { icon_theme: String::from_str("default") },
            },
        }
    }
}

/// The log filter that a verbosity count selects: quiet by default, `info`
/// once, `debug` from twice on.
pub fn log_level(verbose: u8) -> (r: &'static str)
    ensures
        verbose == 0 ==> r@ == "off"@,
        verbose == 1 ==> r@ == "info"@,
        verbose >= 2 ==> r@ == "debug"@,
{
    match verbose {
        0 => "off",
        1 => "info",
        _ => "debug",
    }
}

} // verus!
