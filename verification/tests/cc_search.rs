use micropython_build::cc_search::{cc_command, CcCommand, RawCc, RawCcSource};
use micropython_build::manifest::{manifest_candidate, search_step, ManifestPaths, SearchStep};

fn raw(s: &str) -> RawCc {
    RawCc { s: s.to_owned(), source: RawCcSource::CcEnvVar }
}

#[test]
fn an_existing_compiler_file_is_run_whole() {
    let command = cc_command(&raw("  /opt/my cc  "), true);
    assert_eq!(command, CcCommand { program: b"/opt/my cc".to_vec(), args: vec![] });
}

#[test]
fn a_compiler_command_splits_at_each_space() {
    let command = cc_command(&raw(" gcc -O2  -g\n"), false);
    assert_eq!(command.program, b"gcc".to_vec());
    assert_eq!(command.args, vec![b"-O2".to_vec(), b"".to_vec(), b"-g".to_vec()]);
    let single = cc_command(&raw("clang"), false);
    assert_eq!(single, CcCommand { program: b"clang".to_vec(), args: vec![] });
    let empty = cc_command(&raw("   "), false);
    assert_eq!(empty, CcCommand { program: vec![], args: vec![] });
}

#[test]
fn the_manifest_is_looked_for_in_each_directory() {
    let dir = vec![b"home".to_vec(), b"me".to_vec()];
    assert_eq!(manifest_candidate(&dir), b"/home/me/micropython-rs.toml".to_vec());
    assert_eq!(manifest_candidate(&vec![]), b"/micropython-rs.toml".to_vec());
}

#[test]
fn the_manifest_search_walks_up_to_the_root() {
    let dir = vec![b"home".to_vec(), b"me".to_vec()];
    assert_eq!(search_step(dir.clone(), false), SearchStep::Parent(vec![b"home".to_vec()]));
    assert_eq!(
        search_step(dir, true),
        SearchStep::Found(ManifestPaths {
            path: b"/home/me/micropython-rs.toml".to_vec(),
            dir: b"/home/me".to_vec(),
        })
    );
    assert_eq!(search_step(vec![b"home".to_vec()], false), SearchStep::Parent(vec![]));
    assert_eq!(search_step(vec![], false), SearchStep::NotFound);
    assert_eq!(
        search_step(vec![], true),
        SearchStep::Found(ManifestPaths {
            path: b"/micropython-rs.toml".to_vec(),
            dir: b"/".to_vec(),
        })
    );
}
