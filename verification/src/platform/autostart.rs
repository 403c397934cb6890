//! Start of the agent at login.
use crate::paths::{join, joined, Environment, Platform};
use crate::text::join3;
use vstd::prelude::*;

verus! {

/// What has to be done to switch the start at login on or off.
pub enum AutoStart {
    /// Write the file that starts the agent.
    Write { dir: String, path: String, contents: String },
    /// Remove the file, where it is there.
    Remove { path: String },
    /// Add the value to the registry key of programs to run.
    AddValue { value: String },
    /// Remove the value from that key.
    RemoveValue,
}

/// What an `AutoStart` says.
pub enum AutoStartView {
    Write(Seq<char>, Seq<char>, Seq<char>),
    Remove(Seq<char>),
    AddValue(Seq<char>),
    RemoveValue,
}

impl View for AutoStart {
    type V = AutoStartView;

    open spec fn view(&self) -> AutoStartView {
        match self {
            AutoStart::Write { dir, path, contents } => AutoStartView::Write(
                dir@,
                path@,
                contents@,
            ),
            AutoStart::Remove { path } => AutoStartView::Remove(path@),
            AutoStart::AddValue { value } => AutoStartView::AddValue(value@),
            AutoStart::RemoveValue => AutoStartView::RemoveValue,
        }
    }
}

/// The directory of the files that start programs at login, where it can be told.
pub open spec fn start_dir(env: Environment) -> Option<Seq<char>> {
    match env.platform {
        Platform::Linux => match env.config_home {
            Some(c) => Some(joined(env.platform, c@, "autostart"@)),
            None => match env.home {
                Some(h) => Some(joined(env.platform, h@, ".config/autostart"@)),
                None => None,
            },
        },
        Platform::Macos => match env.home {
            Some(h) => Some(joined(env.platform, h@, "Library/LaunchAgents"@)),
            None => None,
        },
        Platform::Windows => None,
    }
}

/// The name of the file that starts the agent.
pub open spec fn start_name(platform: Platform) -> Seq<char> {
    match platform {
        Platform::Macos => "com.unionfiles.mediamount-agent.plist"@,
        _ => "mediamount-agent.desktop"@,
    }
}

/// The contents of the file that starts the program `exe`.
pub open spec fn start_contents(platform: Platform, exe: Seq<char>) -> Seq<char> {
    match platform {
        Platform::Macos => "<?xml version=\"1.0\" encoding=\"UTF-8\"?>\n<!DOCTYPE plist PUBLIC \"-//Apple//DTD PLIST 1.0//EN\" \"http://www.apple.com/DTDs/PropertyList-1.0.dtd\">\n<plist version=\"1.0\">\n<dict>\n    <key>Label</key>\n    <string>com.unionfiles.mediamount-agent</string>\n    <key>ProgramArguments</key>\n    <array>\n        <string>"@
            + exe
            + "</string>\n    </array>\n    <key>RunAtLoad</key>\n    <true/>\n    <key>KeepAlive</key>\n    <false/>\n</dict>\n</plist>"@,
        _ => "[Desktop Entry]\nType=Application\nName=MediaMount Agent\nExec="@ + exe
            + "\nHidden=false\nNoDisplay=true\nX-GNOME-Autostart-enabled=true\n"@,
    }
}

/// The directory of the files that start programs at login, where it can be told.
fn auto_start_dir(env: &Environment) -> (r: Option<String>)
    ensures
        r is Some <==> start_dir(*env) is Some,
        r matches Some(d) ==> start_dir(*env) == Some(d@),
{
    match env.platform {
        Platform::Linux => match &env.config_home {
            Some(c) => Some(join(env.platform, c.as_str(), "autostart")),
            None => match &env.home {
                Some(h) => Some(join(env.platform, h.as_str(), ".config/autostart")),
                None => None,
            },
        },
        Platform::Macos => match &env.home {
            Some(h) => Some(join(env.platform, h.as_str(), "Library/LaunchAgents")),
            None => None,
        },
        Platform::Windows => None,
    }
}

/// The file that starts the agent at login, where its directory can be told.
pub fn auto_start_path(env: &Environment) -> (r: Option<String>)
    ensures
        r is Some <==> start_dir(*env) is Some,
        r matches Some(p) ==> p@ == joined(
            env.platform,
            start_dir(*env)->0,
            start_name(env.platform),
        ),
{
    match auto_start_dir(env) {
        Some(dir) => {
            let name = match env.platform {
                Platform::Macos => "com.unionfiles.mediamount-agent.plist",
                _ => "mediamount-agent.desktop",
            };
            Some(join(env.platform, dir.as_str(), name))
        },
        None => None,
    }
}

/// What has to be done to switch the start of the program `exe` at login on or off.
pub open spec fn start_change(env: Environment, enabled: bool, exe: Seq<char>) -> Result<
    AutoStartView,
    Seq<char>,
> {
    match env.platform {
        Platform::Windows => if enabled {
            Ok(AutoStartView::AddValue("\""@ + exe + "\""@))
        } else {
            Ok(AutoStartView::RemoveValue)
        },
        _ => match start_dir(env) {
            Some(dir) => {
                let path = joined(env.platform, dir, start_name(env.platform));
                if enabled {
                    Ok(AutoStartView::Write(dir, path, start_contents(env.platform, exe)))
                } else {
                    Ok(AutoStartView::Remove(path))
                }
            },
            None => Err(
                if env.platform is Macos {
                    "Cannot determine HOME directory"@
                } else {
                    "Cannot determine autostart directory"@
                },
            ),
        },
    }
}

/// What has to be done to switch the start of the program `exe` at login on or off.
pub fn set_auto_start(env: &Environment, enabled: bool, exe: &str) -> (r: Result<
    AutoStart,
    String,
>)
    ensures
        match r {
            Ok(a) => start_change(*env, enabled, exe@) == Ok::<AutoStartView, Seq<char>>(a@),
            Err(e) => start_change(*env, enabled, exe@) == Err::<AutoStartView, Seq<char>>(e@),
        },
{
    match env.platform {
        Platform::Windows => {
            if enabled {
                Ok(AutoStart::AddValue { value: join3("\"", exe, "\"") })
            } else {
                Ok(AutoStart::RemoveValue)
            }
        },
        _ => match (auto_start_dir(env), auto_start_path(env)) {
            (Some(dir), Some(path)) => {
                if enabled {
                    let contents = match env.platform {
                        Platform::Macos => join3(
                            "<?xml version=\"1.0\" encoding=\"UTF-8\"?>\n<!DOCTYPE plist PUBLIC \"-//Apple//DTD PLIST 1.0//EN\" \"http://www.apple.com/DTDs/PropertyList-1.0.dtd\">\n<plist version=\"1.0\">\n<dict>\n    <key>Label</key>\n    <string>com.unionfiles.mediamount-agent</string>\n    <key>ProgramArguments</key>\n    <array>\n        <string>",
                            exe,
                            "</string>\n    </array>\n    <key>RunAtLoad</key>\n    <true/>\n    <key>KeepAlive</key>\n    <false/>\n</dict>\n</plist>",
                        ),
                        _ => join3(
                            "[Desktop Entry]\nType=Application\nName=MediaMount Agent\nExec=",
                            exe,
                            "\nHidden=false\nNoDisplay=true\nX-GNOME-Autostart-enabled=true\n",
                        ),
                    };
                    Ok(AutoStart::Write { dir, path, contents })
                } else {
                    Ok(AutoStart::Remove { path })
                }
            },
            _ => {
                let message = match env.platform {
                    Platform::Macos => "Cannot determine HOME directory",
                    _ => "Cannot determine autostart directory",
                };
                Err(message.to_owned())
            },
        },
    }
}

/// Whether the agent starts at login, by whether its file, or its value in the registry, was
/// found.
pub fn is_auto_start_enabled(env: &Environment, found: bool) -> (r: bool)
    ensures
        r == (found && (env.platform is Windows || start_dir(*env) is Some)),
{
    match env.platform {
        Platform::Windows => found,
        _ => found && auto_start_dir(env).is_some(),
    }
}

/// Switching the start at login off takes away exactly what switching it on put in place: the
/// same file, or the value of the registry. What is put in place names the program.
pub proof fn law_switching_off_undoes_switching_on(env: Environment, exe: Seq<char>)
    ensures
        match (start_change(env, true, exe), start_change(env, false, exe)) {
            (Ok(AutoStartView::Write(dir, path, contents)), Ok(AutoStartView::Remove(gone))) => {
                &&& !(env.platform is Windows)
                &&& start_dir(env) == Some(dir)
                &&& path == gone
                &&& path == joined(env.platform, dir, start_name(env.platform))
                &&& crate::text::occurs(contents, exe)
            },
            (Ok(AutoStartView::AddValue(v)), Ok(AutoStartView::RemoveValue)) => env.platform
                is Windows && v == seq!['"'] + exe + seq!['"'],
            (Err(a), Err(b)) => a == b && start_dir(env) is None && !(env.platform is Windows),
            _ => false,
        },
{
    reveal_strlit("\"");
    let c = start_contents(env.platform, exe);
    let lead = c.len() - exe.len() - if env.platform is Macos {
        "</string>\n    </array>\n    <key>RunAtLoad</key>\n    <true/>\n    <key>KeepAlive</key>\n    <false/>\n</dict>\n</plist>"@.len()
    } else {
        "\nHidden=false\nNoDisplay=true\nX-GNOME-Autostart-enabled=true\n"@.len()
    };
    assert(c.subrange(lead, lead + exe.len()) =~= exe);
    assert(crate::text::occurs_at(c, exe, lead));
    assert("\""@ + exe + "\""@ =~= seq!['"'] + exe + seq!['"']);
}

/// The file that starts the agent lies where the desktop looks for such files: below the directory
/// for settings or the home directory of the user.
pub proof fn law_start_file_lies_with_the_users_settings(env: Environment)
    ensures
        env.platform is Windows ==> start_dir(env) is None,
        env.platform is Linux ==> (env.config_home matches Some(c) ==> start_dir(env) == Some(
            joined(env.platform, c@, "autostart"@),
        )),
        env.platform is Linux && env.config_home is None ==> (env.home matches Some(h) ==> start_dir(
            env,
        ) == Some(joined(env.platform, h@, ".config/autostart"@))),
        env.platform is Macos ==> (env.home matches Some(h) ==> start_dir(env) == Some(
            joined(env.platform, h@, "Library/LaunchAgents"@),
        )),
        env.platform is Macos && env.home is None ==> start_dir(env) is None,
{
}

} // verus!
