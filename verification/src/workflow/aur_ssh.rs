//! The AUR's SSH command interface (`ssh aur@aur.archlinux.org <command>`):
//! the commands the UI offers, their labels and risk, and the argument vector
//! sent to the server. Running `ssh` happens in the application.
use vstd::prelude::*;

use crate::i18n::{translated, I18nHolder};
use crate::text::{chars_of, split_ws, split_ws_exec, string_of, trim, trim_vec};
use crate::workflow::ssh_setup::{strings_of, strings_view};

verus! {

/// Whether the command can mutate state on the server.
#[derive(Debug, Clone, Copy, PartialEq, Eq, Structural)]
pub enum Severity {
    /// Read-only, safe to click repeatedly.
    Safe,
    /// Mutates the caller's vote / flag / notification state.
    Writes,
    /// Creates, destroys, or transfers ownership.
    Destructive,
}

/// How the "extra arguments" field is used for a command.
#[derive(Debug, Clone, Copy, PartialEq, Eq, Structural)]
pub enum ArgsShape {
    NoArgs,
    /// Free-form text, passed as a single argument.
    OneArg,
    /// Whitespace-split into multiple arguments.
    Many,
}

/// Every AUR SSH command the UI surfaces.
#[derive(Debug, Clone, Copy, PartialEq, Eq, Structural)]
pub enum AurSshCommand {
    Help,
    ListRepos,
    Vote,
    Unvote,
    Flag,
    Unflag,
    Notify,
    Unnotify,
    Adopt,
    Disown,
    SetupRepo,
    SetComaintainers,
    SetKeywords,
}

/// The literal token sent to the server.
pub open spec fn cmd_token(c: AurSshCommand) -> Seq<char> {
    match c {
        AurSshCommand::Help => "help"@,
        AurSshCommand::ListRepos => "list-repos"@,
        AurSshCommand::Vote => "vote"@,
        AurSshCommand::Unvote => "unvote"@,
        AurSshCommand::Flag => "flag"@,
        AurSshCommand::Unflag => "unflag"@,
        AurSshCommand::Notify => "notify"@,
        AurSshCommand::Unnotify => "unnotify"@,
        AurSshCommand::Adopt => "adopt"@,
        AurSshCommand::Disown => "disown"@,
        AurSshCommand::SetupRepo => "setup-repo"@,
        AurSshCommand::SetComaintainers => "set-comaintainers"@,
        AurSshCommand::SetKeywords => "set-keywords"@,
    }
}

/// Translation key of a command's title.
pub open spec fn title_key(c: AurSshCommand) -> Seq<char> {
    match c {
        AurSshCommand::Help => "aur_ssh.cmd.help.title"@,
        AurSshCommand::ListRepos => "aur_ssh.cmd.list_repos.title"@,
        AurSshCommand::Vote => "aur_ssh.cmd.vote.title"@,
        AurSshCommand::Unvote => "aur_ssh.cmd.unvote.title"@,
        AurSshCommand::Flag => "aur_ssh.cmd.flag.title"@,
        AurSshCommand::Unflag => "aur_ssh.cmd.unflag.title"@,
        AurSshCommand::Notify => "aur_ssh.cmd.notify.title"@,
        AurSshCommand::Unnotify => "aur_ssh.cmd.unnotify.title"@,
        AurSshCommand::Adopt => "aur_ssh.cmd.adopt.title"@,
        AurSshCommand::Disown => "aur_ssh.cmd.disown.title"@,
        AurSshCommand::SetupRepo => "aur_ssh.cmd.setup_repo.title"@,
        AurSshCommand::SetComaintainers => "aur_ssh.cmd.set_comaintainers.title"@,
        AurSshCommand::SetKeywords => "aur_ssh.cmd.set_keywords.title"@,
    }
}

/// Translation key of a command's description.
pub open spec fn description_key(c: AurSshCommand) -> Seq<char> {
    match c {
        AurSshCommand::Help => "aur_ssh.cmd.help.desc"@,
        AurSshCommand::ListRepos => "aur_ssh.cmd.list_repos.desc"@,
        AurSshCommand::Vote => "aur_ssh.cmd.vote.desc"@,
        AurSshCommand::Unvote => "aur_ssh.cmd.unvote.desc"@,
        AurSshCommand::Flag => "aur_ssh.cmd.flag.desc"@,
        AurSshCommand::Unflag => "aur_ssh.cmd.unflag.desc"@,
        AurSshCommand::Notify => "aur_ssh.cmd.notify.desc"@,
        AurSshCommand::Unnotify => "aur_ssh.cmd.unnotify.desc"@,
        AurSshCommand::Adopt => "aur_ssh.cmd.adopt.desc"@,
        AurSshCommand::Disown => "aur_ssh.cmd.disown.desc"@,
        AurSshCommand::SetupRepo => "aur_ssh.cmd.setup_repo.desc"@,
        AurSshCommand::SetComaintainers => "aur_ssh.cmd.set_comaintainers.desc"@,
        AurSshCommand::SetKeywords => "aur_ssh.cmd.set_keywords.desc"@,
    }
}

pub open spec fn severity_of(c: AurSshCommand) -> Severity {
    match c {
        AurSshCommand::Help | AurSshCommand::ListRepos => Severity::Safe,
        AurSshCommand::Adopt | AurSshCommand::Disown | AurSshCommand::SetupRepo => Severity::Destructive,
        _ => Severity::Writes,
    }
}

pub open spec fn args_shape_of(c: AurSshCommand) -> ArgsShape {
    match c {
        AurSshCommand::Flag => ArgsShape::OneArg,
        AurSshCommand::SetComaintainers | AurSshCommand::SetKeywords => ArgsShape::Many,
        _ => ArgsShape::NoArgs,
    }
}

/// Translation key of the hint below the extra-arguments field.
pub open spec fn args_hint_key(c: AurSshCommand) -> Option<Seq<char>> {
    match args_shape_of(c) {
        ArgsShape::NoArgs => None,
        ArgsShape::OneArg => Some("aur_ssh.args.hint_freeform_reason"@),
        ArgsShape::Many => match c {
            AurSshCommand::SetComaintainers => Some("aur_ssh.args.hint_comaintainers"@),
            AurSshCommand::SetKeywords => Some("aur_ssh.args.hint_keywords"@),
            _ => Some("aur_ssh.args.hint_many_generic"@),
        },
    }
}

impl AurSshCommand {
    /// The literal token sent to the server.
    pub fn cmd(self) -> (r: &'static str)
        ensures
            r@ == cmd_token(self),
    {
        match self {
            AurSshCommand::Help => "help",
            AurSshCommand::ListRepos => "list-repos",
            AurSshCommand::Vote => "vote",
            AurSshCommand::Unvote => "unvote",
            AurSshCommand::Flag => "flag",
            AurSshCommand::Unflag => "unflag",
            AurSshCommand::Notify => "notify",
            AurSshCommand::Unnotify => "unnotify",
            AurSshCommand::Adopt => "adopt",
            AurSshCommand::Disown => "disown",
            AurSshCommand::SetupRepo => "setup-repo",
            AurSshCommand::SetComaintainers => "set-comaintainers",
            AurSshCommand::SetKeywords => "set-keywords",
        }
    }

    fn title_key_str(self) -> (r: &'static str)
        ensures
            r@ == title_key(self),
    {
        match self {
            AurSshCommand::Help => "aur_ssh.cmd.help.title",
            AurSshCommand::ListRepos => "aur_ssh.cmd.list_repos.title",
            AurSshCommand::Vote => "aur_ssh.cmd.vote.title",
            AurSshCommand::Unvote => "aur_ssh.cmd.unvote.title",
            AurSshCommand::Flag => "aur_ssh.cmd.flag.title",
            AurSshCommand::Unflag => "aur_ssh.cmd.unflag.title",
            AurSshCommand::Notify => "aur_ssh.cmd.notify.title",
            AurSshCommand::Unnotify => "aur_ssh.cmd.unnotify.title",
            AurSshCommand::Adopt => "aur_ssh.cmd.adopt.title",
            AurSshCommand::Disown => "aur_ssh.cmd.disown.title",
            AurSshCommand::SetupRepo => "aur_ssh.cmd.setup_repo.title",
            AurSshCommand::SetComaintainers => "aur_ssh.cmd.set_comaintainers.title",
            AurSshCommand::SetKeywords => "aur_ssh.cmd.set_keywords.title",
        }
    }

    fn description_key_str(self) -> (r: &'static str)
        ensures
            r@ == description_key(self),
    {
        match self {
            AurSshCommand::Help => "aur_ssh.cmd.help.desc",
            AurSshCommand::ListRepos => "aur_ssh.cmd.list_repos.desc",
            AurSshCommand::Vote => "aur_ssh.cmd.vote.desc",
            AurSshCommand::Unvote => "aur_ssh.cmd.unvote.desc",
            AurSshCommand::Flag => "aur_ssh.cmd.flag.desc",
            AurSshCommand::Unflag => "aur_ssh.cmd.unflag.desc",
            AurSshCommand::Notify => "aur_ssh.cmd.notify.desc",
            AurSshCommand::Unnotify => "aur_ssh.cmd.unnotify.desc",
            AurSshCommand::Adopt => "aur_ssh.cmd.adopt.desc",
            AurSshCommand::Disown => "aur_ssh.cmd.disown.desc",
            AurSshCommand::SetupRepo => "aur_ssh.cmd.setup_repo.desc",
            AurSshCommand::SetComaintainers => "aur_ssh.cmd.set_comaintainers.desc",
            AurSshCommand::SetKeywords => "aur_ssh.cmd.set_keywords.desc",
        }
    }

    /// Label for UI rows in the translator's active locale.
    pub fn title(self, i18n: &I18nHolder) -> (r: String)
        ensures
            r@ == translated(i18n.active, i18n.en_view(), i18n.de_view(), title_key(self)),
    {
        i18n.translate(self.title_key_str())
    }

    /// Help line for UI rows in the translator's active locale.
    pub fn description(self, i18n: &I18nHolder) -> (r: String)
        ensures
            r@ == translated(i18n.active, i18n.en_view(), i18n.de_view(), description_key(self)),
    {
        i18n.translate(self.description_key_str())
    }

    pub fn severity(self) -> (r: Severity)
        ensures
            r == severity_of(self),
    {
        match self {
            AurSshCommand::Help | AurSshCommand::ListRepos => Severity::Safe,
            AurSshCommand::Adopt | AurSshCommand::Disown | AurSshCommand::SetupRepo => {
                Severity::Destructive
            },
            _ => Severity::Writes,
        }
    }

    /// Every command except `help` and `list-repos` names a package.
    pub fn needs_package(self) -> (r: bool)
        ensures
            r == !(self == AurSshCommand::Help || self == AurSshCommand::ListRepos),
    {
        !(self == AurSshCommand::Help || self == AurSshCommand::ListRepos)
    }

    pub fn args_shape(self) -> (r: ArgsShape)
        ensures
            r == args_shape_of(self),
    {
        match self {
            AurSshCommand::Flag => ArgsShape::OneArg,
            AurSshCommand::SetComaintainers | AurSshCommand::SetKeywords => ArgsShape::Many,
            _ => ArgsShape::NoArgs,
        }
    }

    /// Hint below the extra-arguments field, in the translator's active locale.
    pub fn args_hint(self, i18n: &I18nHolder) -> (r: Option<String>)
        ensures
            match args_hint_key(self) {
                None => r is None,
                Some(k) => r matches Some(h) && h@ == translated(
                    i18n.active,
                    i18n.en_view(),
                    i18n.de_view(),
                    k,
                ),
            },
    {
        match self.args_shape() {
            ArgsShape::NoArgs => None,
            ArgsShape::OneArg => Some(i18n.translate("aur_ssh.args.hint_freeform_reason")),
            ArgsShape::Many => match self {
                AurSshCommand::SetComaintainers => Some(i18n.translate("aur_ssh.args.hint_comaintainers")),
                AurSshCommand::SetKeywords => Some(i18n.translate("aur_ssh.args.hint_keywords")),
                _ => Some(i18n.translate("aur_ssh.args.hint_many_generic")),
            },
        }
    }
}

/// Every command, in menu order.
pub open spec fn all_commands() -> Seq<AurSshCommand> {
    seq![
        AurSshCommand::Help,
        AurSshCommand::ListRepos,
        AurSshCommand::Vote,
        AurSshCommand::Unvote,
        AurSshCommand::Flag,
        AurSshCommand::Unflag,
        AurSshCommand::Notify,
        AurSshCommand::Unnotify,
        AurSshCommand::Adopt,
        AurSshCommand::Disown,
        AurSshCommand::SetupRepo,
        AurSshCommand::SetComaintainers,
        AurSshCommand::SetKeywords,
    ]
}

/// Every command, in menu order.
pub fn all_commands_vec() -> (r: Vec<AurSshCommand>)
    ensures
        r@ == all_commands(),
{
    let r = vec![
        AurSshCommand::Help,
        AurSshCommand::ListRepos,
        AurSshCommand::Vote,
        AurSshCommand::Unvote,
        AurSshCommand::Flag,
        AurSshCommand::Unflag,
        AurSshCommand::Notify,
        AurSshCommand::Unnotify,
        AurSshCommand::Adopt,
        AurSshCommand::Disown,
        AurSshCommand::SetupRepo,
        AurSshCommand::SetComaintainers,
        AurSshCommand::SetKeywords,
    ];
    assert(r@ =~= all_commands());
    r
}

/// Message when a package command has no package.
pub open spec fn needs_package_msg() -> Seq<char> {
    "this command requires a package name"@
}

/// Arguments after `aur@aur.archlinux.org`: the command token, the trimmed
/// package name when the command needs one, then the extra arguments as the
/// command's shape takes them.
pub open spec fn remote_args_of(c: AurSshCommand, package: Option<Seq<char>>, extra: Seq<char>) -> Result<Seq<Seq<char>>, Seq<char>> {
    let pkg = match package {
        Some(p) => trim(p),
        None => seq![],
    };
    let needs = !(c == AurSshCommand::Help || c == AurSshCommand::ListRepos);
    if needs && pkg.len() == 0 {
        Err(needs_package_msg())
    } else {
        let head = if needs {
            seq![cmd_token(c), pkg]
        } else {
            seq![cmd_token(c)]
        };
        Ok(match args_shape_of(c) {
            ArgsShape::NoArgs => head,
            ArgsShape::OneArg => if trim(extra).len() > 0 {
                head.push(trim(extra))
            } else {
                head
            },
            ArgsShape::Many => head + split_ws(extra),
        })
    }
}

/// Builds the remote argument vector of a command.
pub fn remote_args(cmd: AurSshCommand, package: Option<&str>, extra_args: &str) -> (r: Result<Vec<String>, String>)
    ensures
        match remote_args_of(cmd, match package {
            Some(p) => Some(p@),
            None => None,
        }, extra_args@) {
            Ok(v) => r matches Ok(x) && strings_view(x@) == v,
            Err(m) => r matches Err(x) && x@ == m,
        },
{
    let ghost pkg_v = match package {
        Some(p) => trim(p@),
        None => Seq::<char>::empty(),
    };
    let tok = chars_of(cmd.cmd());
    proof {
        crate::text::lemma_deep_chars(&tok);
    }
    let mut remote: Vec<Vec<char>> = Vec::new();
    let ghost tv = tok@;
    remote.push(tok);
    assert(remote.deep_view() =~= seq![tv]);
    if cmd.needs_package() {
        let pkg = match package {
            Some(p) => trim_vec(&chars_of(p)),
            None => Vec::new(),
        };
        assert(pkg@ == pkg_v);
        if pkg.len() == 0 {
            return Err(string_of(&chars_of("this command requires a package name")));
        }
        proof {
            crate::text::lemma_deep_chars(&pkg);
        }
        let ghost r0 = remote.deep_view();
        let ghost pv = pkg@;
        remote.push(pkg);
        assert(remote.deep_view() =~= r0.push(pv));
    }
    let ghost head = remote.deep_view();
    match cmd.args_shape() {
        ArgsShape::NoArgs => {},
        ArgsShape::OneArg => {
            let t = trim_vec(&chars_of(extra_args));
            if t.len() > 0 {
                proof {
                    crate::text::lemma_deep_chars(&t);
                }
                let ghost r0 = remote.deep_view();
                let ghost tv2 = t@;
                remote.push(t);
                assert(remote.deep_view() =~= r0.push(tv2));
            }
        },
        ArgsShape::Many => {
            let words = split_ws_exec(&chars_of(extra_args));
            let mut i: usize = 0;
            assert(words.deep_view().take(0) =~= Seq::<Seq<char>>::empty());
            assert(head + words.deep_view().take(0) =~= head);
            while i < words.len()
                invariant
                    i <= words.len(),
                    remote.deep_view() == head + words.deep_view().take(i as int),
                decreases words.len() - i,
            {
                let w = crate::text::slice_vec(&words[i], 0, words[i].len());
                let ghost r0 = remote.deep_view();
                proof {
                    crate::text::lemma_deep_chars(&words[i as int]);
                    crate::text::lemma_deep_chars(&w);
                }
                let ghost wv = w@;
                assert(wv == words.deep_view()[i as int]);
                remote.push(w);
                assert(remote.deep_view() =~= r0.push(wv));
                assert(words.deep_view().take(i as int + 1) =~= words.deep_view().take(i as int).push(wv));
                assert(remote.deep_view() =~= head + words.deep_view().take(i as int + 1));
                i += 1;
            }
            assert(words.deep_view().take(words.len() as int) =~= words.deep_view());
        },
    }
    Ok(strings_of(&remote))
}

} // verus!
