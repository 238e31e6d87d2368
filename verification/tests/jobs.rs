use xpm::jobs::{
    build_pacman_command, clean_package_cache, fix_keyring, input_line, install,
    install_local_package, managed_failure, remove, remove_orphans, terminal_failure, update,
    update_all, update_mirrorlists, Job,
};

fn names() -> Vec<String> {
    vec!["a".to_string(), "b".to_string()]
}

fn line(job: &Job) -> String {
    format!("{} {}", job.program, job.args.join(" "))
}

#[test]
fn commands_are_built() {
    let all = [
        ("install", 1, "flatpak install -y a b"),
        ("bulk-install", 1, "flatpak install -y a b"),
        ("remove", 1, "flatpak uninstall -y a b"),
        ("bulk-remove", 1, "flatpak uninstall -y a b"),
        ("update", 1, "flatpak update -y a b"),
        ("remove", 0, "pkexec pacman -R a b"),
        ("bulk-remove", 2, "pkexec pacman -R a b"),
        ("update-all", 0, "pkexec pacman -Syu"),
        ("update-all", 1, "pkexec pacman -Syu"),
        ("install", 0, "pkexec pacman -S a b"),
        ("update", 0, "pkexec pacman -S a b"),
        ("anything", 1, "pkexec pacman -S a b"),
    ];
    for (action, backend, wanted) in all {
        let (program, args) = build_pacman_command(action, &names(), backend);
        assert_eq!(format!("{} {}", program, args.join(" ")), wanted);
    }
}

#[test]
fn commands_name_their_packages() {
    for action in ["install", "bulk-install", "remove", "bulk-remove", "update", "other"] {
        for backend in 0..3 {
            let (program, args) = build_pacman_command(action, &names(), backend);
            assert_eq!(&args[args.len() - 2..], &names()[..]);
            assert_eq!(program == "pkexec", args[0] == "pacman");
        }
    }
}

#[test]
fn jobs_have_titles() {
    let job = install("vim", 0);
    assert_eq!(job.title, "Installing vim");
    assert_eq!(line(&job), "pkexec pacman -S vim");
    let job = remove("org.gimp.GIMP", 1);
    assert_eq!(job.title, "Removing org.gimp.GIMP");
    assert_eq!(line(&job), "flatpak uninstall -y org.gimp.GIMP");
    let job = update("vim", 0);
    assert_eq!(job.title, "Updating vim");
    assert_eq!(line(&job), "pkexec pacman -S vim");
    let job = update_all();
    assert_eq!(job.title, "System Update");
    assert_eq!(line(&job), "pkexec pacman -Syu");
}

#[test]
fn maintenance_has_its_commands() {
    let job = clean_package_cache();
    assert_eq!(job.title, "Cleaning Package Cache");
    assert_eq!(line(&job), "pkexec pacman -Scc");
    let job = remove_orphans();
    assert_eq!(job.title, "Removing Orphan Packages");
    assert_eq!(job.args, vec!["bash", "-c", "pacman -Qdtq | pacman -Rns -"]);
    let job = install_local_package("/tmp/a.pkg.tar.zst");
    assert_eq!(job.title, "Installing /tmp/a.pkg.tar.zst");
    assert_eq!(line(&job), "pkexec pacman -U /tmp/a.pkg.tar.zst");
    let job = update_mirrorlists();
    assert_eq!(job.title, "Updating Mirrorlists");
    assert_eq!(
        job.args[2],
        "rate-mirrors --allow-root --protocol https arch | tee /etc/pacman.d/mirrorlist && rate-mirrors --allow-root --protocol https chaotic-aur | tee /etc/pacman.d/chaotic-mirrorlist"
    );
    let job = fix_keyring();
    assert_eq!(job.title, "Fixing GnuPG Keyring");
    assert_eq!(
        job.args[2],
        "rm -rf /etc/pacman.d/gnupg/* && pacman-key --init && pacman-key --populate && echo 'keyserver hkp://keyserver.ubuntu.com:80' | tee -a /etc/pacman.d/gnupg/gpg.conf && pacman -Syy --noconfirm archlinux-keyring"
    );
    assert_eq!(job.program, "pkexec");
}

#[test]
fn failures_to_start_are_told() {
    let (first, second) = managed_failure("openpty failed");
    assert_eq!(format!("{:?}", first), "OperationProgress(0, \"Error: openpty failed\")");
    assert_eq!(format!("{:?}", second), "OperationDone(false)");
    let (first, second) = terminal_failure("openpty failed");
    assert_eq!(format!("{:?}", first), "TerminalOutput(\"Error: openpty failed\\n\")");
    assert_eq!(format!("{:?}", second), "TerminalDone(false)");
    assert_eq!(input_line("y"), "y\n");
}
