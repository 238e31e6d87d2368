use xpm::cache::{total_size, CacheFile, CacheManager, CachedPackage};
use xpm::error::Error;

#[test]
fn test_parse_package_name() {
    assert_eq!(
        CacheManager::parse_package_name("firefox-120.0-1-x86_64.pkg.tar.zst"),
        Some("firefox".to_string())
    );
    assert_eq!(
        CacheManager::parse_package_name("qt6-base-6.6.1-1-x86_64.pkg.tar.zst"),
        Some("qt6-base".to_string())
    );
    assert_eq!(
        CacheManager::parse_package_name("lib32-mesa-23.3.1-1-x86_64.pkg.tar.zst"),
        Some("lib32-mesa".to_string())
    );
}

#[test]
fn other_file_names_hold_no_package() {
    for name in [
        "",
        "readme.txt",
        "firefox-120.0-1-x86_64.tar.zst",
        "firefox-120.0.pkg.tar.zst",
        "a-b-c-d.pkg.tar.zst",
        "7zip-23.01-1-x86_64.pkg.tar.zst",
        ".pkg.tar",
    ] {
        assert_eq!(CacheManager::parse_package_name(name), None, "{}", name);
    }
}

#[test]
fn names_stand_in_front_of_the_last_three_parts() {
    for (file, name) in [
        ("xorg-fonts-100dpi-1.0.4-1-any.pkg.tar.zst", "xorg-fonts-100dpi"),
        ("xorg-fonts-75dpi-1.0.4-1-any.pkg.tar.zst", "xorg-fonts-75dpi"),
        ("libva-2-utils-1.0-1-any.pkg.tar.xz", "libva-2-utils"),
        ("tool-r12.abc-1-any.pkg.tar.zst", "tool"),
        ("-1-1-any.pkg.tar.zst", ""),
    ] {
        assert_eq!(CacheManager::parse_package_name(file), Some(name.to_string()), "{}", file);
        assert_eq!(CacheManager::version_of(file), Some(name.to_string()), "{}", file);
    }
}

#[test]
fn signatures_are_no_versions() {
    let signature = "vim-9.1-1-x86_64.pkg.tar.zst.sig";
    assert!(CacheManager::is_signature(signature));
    assert!(CacheManager::is_package_file(signature));
    assert_eq!(CacheManager::version_of(signature), None);
    assert!(!CacheManager::is_signature("vim-9.1-1-x86_64.pkg.tar.zst"));
    assert!(!CacheManager::is_package_file("vim.sig"));
}

#[test]
fn managers_keep_their_directories() {
    let dirs = vec!["/var/cache/pacman/pkg".to_string(), "/tmp/pkg".to_string()];
    assert_eq!(CacheManager::new(&dirs).cache_dirs, dirs);
}

#[test]
fn packages_are_listed() {
    let file = |name: &str, size: u64| CachedPackage {
        path: format!("/pkg/{}", name),
        filename: name.to_string(),
        size,
    };
    let files = vec![file("a-1-1-any.pkg.tar.zst", 10), file("notes", 5), file("x.pkg.tar", 7)];
    let found = CacheManager::list(&files);
    assert_eq!(found.len(), 2);
    assert_eq!(found[0].filename, "a-1-1-any.pkg.tar.zst");
    assert_eq!(found[0].path, "/pkg/a-1-1-any.pkg.tar.zst");
    assert_eq!(found[0].size, 10);
    assert_eq!(found[1].filename, "x.pkg.tar");
}

#[test]
fn sizes_add_up_where_they_fit() {
    assert_eq!(total_size(&vec![]), Some(0));
    assert_eq!(total_size(&vec![1, 2, 3]), Some(6));
    assert_eq!(total_size(&vec![u64::MAX, 0]), Some(u64::MAX));
    assert_eq!(total_size(&vec![u64::MAX, 1]), None);
}

#[test]
fn cache_sizes_add_up_over_directories() {
    assert!(matches!(CacheManager::get_size(vec![]), Ok(Some(0))));
    assert!(matches!(CacheManager::get_size(vec![Ok(vec![1, 2]), Ok(vec![]), Ok(vec![4])]), Ok(Some(7))));
    assert!(matches!(CacheManager::get_size(vec![Ok(vec![u64::MAX]), Ok(vec![1])]), Ok(None)));
    let failed = CacheManager::get_size(vec![
        Ok(vec![1]),
        Err(Error::Io("first".to_string())),
        Err(Error::Io("second".to_string())),
    ]);
    match failed {
        Err(Error::Io(s)) => assert_eq!(s, "first"),
        _ => panic!("{:?}", failed),
    }
}

fn file(name: &str, modified: i128) -> CacheFile {
    CacheFile { filename: name.to_string(), modified }
}

#[test]
fn the_newest_versions_stay() {
    let files = vec![
        file("a-1-1-any.pkg.tar.zst", 10),
        file("a-2-1-any.pkg.tar.zst", 30),
        file("b-1-1-any.pkg.tar.zst", 5),
        file("a-3-1-any.pkg.tar.zst", 20),
        file("notes.txt", 0),
        file("a-4-1-any.pkg.tar.zst", 40),
    ];
    assert_eq!(CacheManager::clean_dir(&files, 2), vec![0, 3]);
    assert_eq!(CacheManager::clean_dir(&files, 4), Vec::<usize>::new());
    assert_eq!(CacheManager::clean_dir(&files, 0), vec![0, 1, 2, 3, 5]);
    assert_eq!(CacheManager::clean_dir(&files, 1), vec![0, 1, 3]);
}

#[test]
fn of_the_same_age_the_first_found_stay() {
    let files = vec![
        file("a-1-1-any.pkg.tar.zst", 7),
        file("a-2-1-any.pkg.tar.zst", 7),
        file("a-3-1-any.pkg.tar.zst", 7),
    ];
    assert_eq!(CacheManager::clean_dir(&files, 1), vec![1, 2]);
}

#[test]
fn every_directory_is_cleaned_by_itself() {
    let dirs = vec![
        vec![file("a-1-1-any.pkg.tar.zst", 1), file("a-2-1-any.pkg.tar.zst", 2)],
        vec![],
        vec![file("a-3-1-any.pkg.tar.zst", 3)],
    ];
    assert_eq!(CacheManager::clean(&dirs, 1), vec![vec![0], vec![], vec![]]);
}

#[test]
fn cleaning_keeps_the_wanted_number() {
    for keep in 0..6usize {
        let mut files = Vec::new();
        for i in 0..5 {
            files.push(file(&format!("a-{}-1-any.pkg.tar.zst", i), (i * 7 % 5) as i128));
        }
        let gone = CacheManager::clean_dir(&files, keep);
        assert_eq!(files.len() - gone.len(), keep.min(5));
        let kept: Vec<i128> = (0..5).filter(|i| !gone.contains(i)).map(|i| files[i].modified).collect();
        for g in &gone {
            for k in &kept {
                assert!(*k >= files[*g].modified);
            }
        }
    }
}

#[test]
fn signatures_go_with_their_packages() {
    let files = vec![
        file("foo-1-1-any.pkg.tar.zst", 10),
        file("foo-2-1-any.pkg.tar.zst", 20),
        file("foo-1-1-any.pkg.tar.zst.sig", 30),
        file("foo-2-1-any.pkg.tar.zst.sig", 40),
        file("foo-3-1-any.pkg.tar.zst.sig", 50),
        file("foo-1-1-any.pkg.tar.sig", 60),
    ];
    assert_eq!(CacheManager::clean_dir(&files, 1), vec![0, 2]);
    assert_eq!(CacheManager::clean_dir(&files, 0), vec![0, 1, 2, 3]);
    assert_eq!(CacheManager::clean_dir(&files, 2), Vec::<usize>::new());
}

#[test]
fn packages_that_share_a_beginning_are_kept_apart() {
    let files = vec![
        file("xorg-fonts-75dpi-1.0-1-any.pkg.tar.zst", 1),
        file("xorg-fonts-100dpi-1.0-1-any.pkg.tar.zst", 2),
        file("xorg-fonts-100dpi-1.1-1-any.pkg.tar.zst", 3),
    ];
    assert_eq!(CacheManager::clean_dir(&files, 1), vec![1]);
}

#[test]
fn names_are_read_whatever_the_version() {
    for name in ["vim", "qt6-base", "lib32-mesa", "a-b-c", "x.y", "gtk+", "fonts-100dpi"] {
        for version in ["1", "2.0.1", "1:3.4", "0r12"] {
            for ending in [".zst", ".xz", ""] {
                let file = format!("{}-{}-1-x86_64.pkg.tar{}", name, version, ending);
                assert_eq!(CacheManager::parse_package_name(&file), Some(name.to_string()));
            }
        }
    }
}
