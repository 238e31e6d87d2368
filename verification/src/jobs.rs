//! The commands that carry out what the user asks for.
use crate::text;
use crate::ui::{UiMessage, UiMessageView};
use vstd::prelude::*;
use vstd::string::*;

verus! {

broadcast use vstd::seq_lib::group_seq_properties;

/// A command to run, under a title.
#[derive(Debug)]
pub struct Job {
    /// What the window calls it.
    pub title: String,
    /// The program.
    pub program: String,
    /// Its arguments.
    pub args: Vec<String>,
}

/// What a `Job` holds.
#[verifier::ext_equal]
pub struct JobView {
    pub title: Seq<char>,
    pub program: Seq<char>,
    pub args: Seq<Seq<char>>,
}

impl View for Job {
    type V = JobView;

    open spec fn view(&self) -> JobView {
        JobView {
            title: self.title@,
            program: self.program@,
            args: text::strings(self.args@),
        }
    }
}

/// The program and the arguments for an action on packages of a backend. Flatpak,
/// backend 1, installs, removes and updates its own applications; everything else
/// goes to pacman with administrator rights, and is an installation unless it is a
/// removal or a full upgrade.
pub open spec fn command(action: Seq<char>, names: Seq<Seq<char>>, backend: i32) -> (
    Seq<char>,
    Seq<Seq<char>>,
) {
    let removes = action == "remove"@ || action == "bulk-remove"@;
    if backend == 1 && (action == "install"@ || action == "bulk-install"@) {
        ("flatpak"@, seq!["install"@, "-y"@] + names)
    } else if backend == 1 && removes {
        ("flatpak"@, seq!["uninstall"@, "-y"@] + names)
    } else if backend == 1 && action == "update"@ {
        ("flatpak"@, seq!["update"@, "-y"@] + names)
    } else if removes {
        ("pkexec"@, seq!["pacman"@, "-R"@] + names)
    } else if action == "update-all"@ {
        ("pkexec"@, seq!["pacman"@, "-Syu"@])
    } else {
        ("pkexec"@, seq!["pacman"@, "-S"@] + names)
    }
}

/// Two arguments, then the names.
fn arguments(first: &str, second: &str, names: &Vec<String>) -> (r: Vec<String>)
    ensures
        text::strings(r@) == seq![first@, second@] + text::strings(names@),
{
    let mut r: Vec<String> = Vec::new();
    r.push(first.to_owned());
    r.push(second.to_owned());
    let ghost all = text::strings(names@);
    let mut i: usize = 0;
    assert(text::strings(r@) =~= seq![first@, second@] + all.take(0));
    while i < names.len()
        invariant
            i <= names@.len(),
            all == text::strings(names@),
            text::strings(r@) == seq![first@, second@] + all.take(i as int),
        decreases names@.len() - i,
    {
        let ghost before = r@;
        r.push(names[i].clone());
        assert(text::strings(r@) =~= text::strings(before).push(names@[i as int]@));
        assert(all.take(i + 1) =~= all.take(i as int).push(names@[i as int]@));
        assert(text::strings(r@) =~= seq![first@, second@] + all.take(i + 1));
        i += 1;
    }
    assert(all.take(all.len() as int) =~= all);
    r
}

/// The program and the arguments for an action on packages of a backend.
pub fn build_pacman_command(action: &str, names: &Vec<String>, backend: i32) -> (r: (
    String,
    Vec<String>,
))
    ensures
        (r.0@, text::strings(r.1@)) == command(action@, text::strings(names@), backend),
{
    let removes = text::equals(action, "remove") || text::equals(action, "bulk-remove");
    if backend == 1 && (text::equals(action, "install") || text::equals(action, "bulk-install")) {
        ("flatpak".to_owned(), arguments("install", "-y", names))
    } else if backend == 1 && removes {
        ("flatpak".to_owned(), arguments("uninstall", "-y", names))
    } else if backend == 1 && text::equals(action, "update") {
        ("flatpak".to_owned(), arguments("update", "-y", names))
    } else if removes {
        ("pkexec".to_owned(), arguments("pacman", "-R", names))
    } else if text::equals(action, "update-all") {
        let none: Vec<String> = Vec::new();
        let args = arguments("pacman", "-Syu", &none);
        assert(text::strings(args@) =~= seq!["pacman"@, "-Syu"@]);
        ("pkexec".to_owned(), args)
    } else {
        ("pkexec".to_owned(), arguments("pacman", "-S", names))
    }
}

/// The job for an action on packages of a backend.
pub open spec fn job(
    title: Seq<char>,
    action: Seq<char>,
    names: Seq<Seq<char>>,
    backend: i32,
) -> JobView {
    let (program, args) = command(action, names, backend);
    JobView { title, program, args }
}

/// The job for an action on packages of a backend.
pub fn managed(title: String, action: &str, names: &Vec<String>, backend: i32) -> (r: Job)
    ensures
        r@ == job(title@, action@, text::strings(names@), backend),
{
    let (program, args) = build_pacman_command(action, names, backend);
    Job { title, program, args }
}

/// The job for an action on one package, titled with what is done to it.
fn single(doing: &str, action: &str, name: &str, backend: i32) -> (r: Job)
    ensures
        r@ == job(doing@ + name@, action@, seq![name@], backend),
{
    let title = doing.to_owned().concat(name);
    let mut names: Vec<String> = Vec::new();
    names.push(name.to_owned());
    assert(text::strings(names@) =~= seq![name@]);
    managed(title, action, &names, backend)
}

/// Installs a package.
pub fn install(name: &str, backend: i32) -> (r: Job)
    ensures
        r@ == job("Installing "@ + name@, "install"@, seq![name@], backend),
{
    single("Installing ", "install", name, backend)
}

/// Removes a package.
pub fn remove(name: &str, backend: i32) -> (r: Job)
    ensures
        r@ == job("Removing "@ + name@, "remove"@, seq![name@], backend),
{
    single("Removing ", "remove", name, backend)
}

/// Updates a package.
pub fn update(name: &str, backend: i32) -> (r: Job)
    ensures
        r@ == job("Updating "@ + name@, "update"@, seq![name@], backend),
{
    single("Updating ", "update", name, backend)
}

/// Upgrades the system.
pub fn update_all() -> (r: Job)
    ensures
        r@ == job("System Update"@, "update-all"@, Seq::empty(), 0),
{
    let none: Vec<String> = Vec::new();
    assert(text::strings(none@) =~= Seq::empty());
    managed("System Update".to_owned(), "update-all", &none, 0)
}

/// Two arguments and a third.
fn three(first: &str, second: &str, third: &str) -> (r: Vec<String>)
    ensures
        text::strings(r@) == seq![first@, second@, third@],
{
    let mut r: Vec<String> = Vec::new();
    r.push(first.to_owned());
    r.push(second.to_owned());
    r.push(third.to_owned());
    assert(text::strings(r@) =~= seq![first@, second@, third@]);
    r
}

/// Empties the package cache.
pub fn clean_package_cache() -> (r: Job)
    ensures
        r@ == (JobView {
            title: "Cleaning Package Cache"@,
            program: "pkexec"@,
            args: seq!["pacman"@, "-Scc"@],
        }),
{
    let none: Vec<String> = Vec::new();
    let args = arguments("pacman", "-Scc", &none);
    assert(text::strings(args@) =~= seq!["pacman"@, "-Scc"@]);
    Job { title: "Cleaning Package Cache".to_owned(), program: "pkexec".to_owned(), args }
}

/// Removes the packages that nothing needs any more.
pub fn remove_orphans() -> (r: Job)
    ensures
        r@ == (JobView {
            title: "Removing Orphan Packages"@,
            program: "pkexec"@,
            args: seq!["bash"@, "-c"@, "pacman -Qdtq | pacman -Rns -"@],
        }),
{
    Job {
        title: "Removing Orphan Packages".to_owned(),
        program: "pkexec".to_owned(),
        args: three("bash", "-c", "pacman -Qdtq | pacman -Rns -"),
    }
}

/// Installs a package from a file.
pub fn install_local_package(path: &str) -> (r: Job)
    ensures
        r@ == (JobView {
            title: "Installing "@ + path@,
            program: "pkexec"@,
            args: seq!["pacman"@, "-U"@, path@],
        }),
{
    Job {
        title: "Installing ".to_owned().concat(path),
        program: "pkexec".to_owned(),
        args: three("pacman", "-U", path),
    }
}

/// Ranks the mirrors anew.
pub fn update_mirrorlists() -> (r: Job)
    ensures
        r@ == (JobView {
            title: "Updating Mirrorlists"@,
            program: "pkexec"@,
            args: seq![
                "bash"@,
                "-c"@,
                "rate-mirrors --allow-root --protocol https arch | tee /etc/pacman.d/mirrorlist && rate-mirrors --allow-root --protocol https chaotic-aur | tee /etc/pacman.d/chaotic-mirrorlist"@,
            ],
        }),
{
    Job {
        title: "Updating Mirrorlists".to_owned(),
        program: "pkexec".to_owned(),
        args: three(
            "bash",
            "-c",
            "rate-mirrors --allow-root --protocol https arch | tee /etc/pacman.d/mirrorlist && rate-mirrors --allow-root --protocol https chaotic-aur | tee /etc/pacman.d/chaotic-mirrorlist",
        ),
    }
}

/// Sets the keyring up anew.
pub fn fix_keyring() -> (r: Job)
    ensures
        r@ == (JobView {
            title: "Fixing GnuPG Keyring"@,
            program: "pkexec"@,
            args: seq![
                "bash"@,
                "-c"@,
                "rm -rf /etc/pacman.d/gnupg/* && pacman-key --init && pacman-key --populate && echo 'keyserver hkp://keyserver.ubuntu.com:80' | tee -a /etc/pacman.d/gnupg/gpg.conf && pacman -Syy --noconfirm archlinux-keyring"@,
            ],
        }),
{
    Job {
        title: "Fixing GnuPG Keyring".to_owned(),
        program: "pkexec".to_owned(),
        args: three(
            "bash",
            "-c",
            "rm -rf /etc/pacman.d/gnupg/* && pacman-key --init && pacman-key --populate && echo 'keyserver hkp://keyserver.ubuntu.com:80' | tee -a /etc/pacman.d/gnupg/gpg.conf && pacman -Syy --noconfirm archlinux-keyring",
        ),
    }
}

/// What to tell the window when a managed operation could not be started.
pub fn managed_failure(error: &str) -> (r: (UiMessage, UiMessage))
    ensures
        r.0@ == UiMessageView::OperationProgress(0, "Error: "@ + error@),
        r.1@ == UiMessageView::OperationDone(false),
{
    (
        UiMessage::OperationProgress(0, "Error: ".to_owned().concat(error)),
        UiMessage::OperationDone(false),
    )
}

/// What to tell the window when a terminal command could not be started.
pub fn terminal_failure(error: &str) -> (r: (UiMessage, UiMessage))
    ensures
        r.0@ == UiMessageView::TerminalOutput("Error: "@ + error@ + "\n"@),
        r.1@ == UiMessageView::TerminalDone(false),
{
    (
        UiMessage::TerminalOutput("Error: ".to_owned().concat(error).concat("\n")),
        UiMessage::TerminalDone(false),
    )
}

/// What the user typed, as the command reads it.
pub fn input_line(input: &str) -> (r: String)
    ensures
        r@ == input@ + "\n"@,
{
    input.to_owned().concat("\n")
}

/// The actions that name packages run the program on exactly those packages, in
/// their order, behind two arguments.
pub proof fn command_names_its_packages(action: Seq<char>, names: Seq<Seq<char>>, backend: i32)
    requires
        action != "update-all"@,
    ensures
        command(action, names, backend).1.len() == 2 + names.len(),
        command(action, names, backend).1.skip(2) == names,
{
}

/// Whatever changes the packages of pacman runs with administrator rights, and no
/// action on Flatpak applications does.
pub proof fn only_pacman_is_privileged(action: Seq<char>, names: Seq<Seq<char>>, backend: i32)
    ensures
        backend != 1 ==> command(action, names, backend).0 == "pkexec"@,
        backend == 1 && (action == "install"@ || action == "remove"@ || action == "update"@)
            ==> command(action, names, backend).0 == "flatpak"@,
{
}

/// The commands that change packages. Flatpak applications, which have the number 1, are
/// installed, removed and updated by `flatpak`, without further questions; all other
/// packages are installed and updated by `pacman -S` and removed by `pacman -R`.
pub proof fn actions_have_their_commands(names: Seq<Seq<char>>, backend: i32)
    ensures
        command("install"@, names, 1) == ("flatpak"@, seq!["install"@, "-y"@] + names),
        command("bulk-install"@, names, 1) == ("flatpak"@, seq!["install"@, "-y"@] + names),
        command("remove"@, names, 1) == ("flatpak"@, seq!["uninstall"@, "-y"@] + names),
        command("bulk-remove"@, names, 1) == ("flatpak"@, seq!["uninstall"@, "-y"@] + names),
        command("update"@, names, 1) == ("flatpak"@, seq!["update"@, "-y"@] + names),
        backend != 1 ==> command("install"@, names, backend) == (
            "pkexec"@,
            seq!["pacman"@, "-S"@] + names,
        ),
        backend != 1 ==> command("bulk-install"@, names, backend) == (
            "pkexec"@,
            seq!["pacman"@, "-S"@] + names,
        ),
        backend != 1 ==> command("update"@, names, backend) == (
            "pkexec"@,
            seq!["pacman"@, "-S"@] + names,
        ),
        backend != 1 ==> command("remove"@, names, backend) == (
            "pkexec"@,
            seq!["pacman"@, "-R"@] + names,
        ),
        backend != 1 ==> command("bulk-remove"@, names, backend) == (
            "pkexec"@,
            seq!["pacman"@, "-R"@] + names,
        ),
        command("update-all"@, names, backend) == ("pkexec"@, seq!["pacman"@, "-Syu"@]),
{
    reveal_strlit("install");
    reveal_strlit("bulk-install");
    reveal_strlit("remove");
    reveal_strlit("bulk-remove");
    reveal_strlit("update");
    reveal_strlit("update-all");
    assert("install"@.len() == 7 && "remove"@.len() == 6 && "update"@.len() == 6);
    assert("bulk-install"@.len() == 12 && "bulk-remove"@.len() == 11 && "update-all"@.len() == 10);
    assert("remove"@[0] == 'r' && "update"@[0] == 'u');
}

/// What the single jobs do: the title names what is done and to what, and the command is
/// run on that one package.
pub proof fn jobs_run_their_commands(name: Seq<char>, backend: i32)
    ensures
        backend != 1 ==> job("Installing "@ + name, "install"@, seq![name], backend) == (JobView {
            title: "Installing "@ + name,
            program: "pkexec"@,
            args: seq!["pacman"@, "-S"@, name],
        }),
        backend != 1 ==> job("Removing "@ + name, "remove"@, seq![name], backend) == (JobView {
            title: "Removing "@ + name,
            program: "pkexec"@,
            args: seq!["pacman"@, "-R"@, name],
        }),
        job("Installing "@ + name, "install"@, seq![name], 1) == (JobView {
            title: "Installing "@ + name,
            program: "flatpak"@,
            args: seq!["install"@, "-y"@, name],
        }),
        job("Removing "@ + name, "remove"@, seq![name], 1) == (JobView {
            title: "Removing "@ + name,
            program: "flatpak"@,
            args: seq!["uninstall"@, "-y"@, name],
        }),
        job("Updating "@ + name, "update"@, seq![name], 1) == (JobView {
            title: "Updating "@ + name,
            program: "flatpak"@,
            args: seq!["update"@, "-y"@, name],
        }),
        job("System Update"@, "update-all"@, Seq::empty(), 0) == (JobView {
            title: "System Update"@,
            program: "pkexec"@,
            args: seq!["pacman"@, "-Syu"@],
        }),
{
    actions_have_their_commands(seq![name], backend);
    actions_have_their_commands(Seq::empty(), 0);
    assert(seq!["pacman"@, "-S"@] + seq![name] =~= seq!["pacman"@, "-S"@, name]);
    assert(seq!["pacman"@, "-R"@] + seq![name] =~= seq!["pacman"@, "-R"@, name]);
    assert(seq!["install"@, "-y"@] + seq![name] =~= seq!["install"@, "-y"@, name]);
    assert(seq!["uninstall"@, "-y"@] + seq![name] =~= seq!["uninstall"@, "-y"@, name]);
    assert(seq!["update"@, "-y"@] + seq![name] =~= seq!["update"@, "-y"@, name]);
}

} // verus!
