use wslgit::dispatch::translates_output;
use wslgit::drive::{get_drive_letter, get_prefix_for_drive};
use wslgit::editor::{editor_command, translate_git_editor};
use wslgit::host_path::{executable_candidates, parse_prefix, replace_extension, Prefix};
use wslgit::quoting::{shell_escape, unquote};
use wslgit::to_host::translate_path_to_win;
use wslgit::to_posix::{split_long_argument, translate_host_path, translate_path_to_unix, PathError};

fn to_unix(arg: &str, exists: bool) -> Result<String, PathError> {
    translate_path_to_unix(arg.to_string(), exists)
}

#[test]
fn win_to_unix_path_trans() {
    assert_eq!(
        translate_path_to_unix("d:\\test\\file.txt".to_string(), false),
        Ok("/mnt/d/test/file.txt".to_string()));
    assert_eq!(
        translate_path_to_unix("C:\\Users\\test\\a space.txt".to_string(), false),
        Ok("/mnt/c/Users/test/a space.txt".to_string()));
}

#[test]
fn unix_to_win_path_trans() {
    assert_eq!(
        &*translate_path_to_win(b"/mnt/d/some path/a file.md"),
        b"d:/some path/a file.md");
    assert_eq!(
        &*translate_path_to_win(b"origin  /mnt/c/path/ (fetch)"),
        b"origin  c:/path/ (fetch)");
    let multiline = b"mirror  /mnt/c/other/ (fetch)\nmirror  /mnt/c/other/ (push)\n";
    let multiline_result = b"mirror  c:/other/ (fetch)\nmirror  c:/other/ (push)\n";
    assert_eq!(
        &*translate_path_to_win(&multiline[..]),
        &multiline_result[..]);
}

#[test]
fn no_path_translation() {
    assert_eq!(
        &*translate_path_to_win(b"/mnt/other/file.sh"),
        b"/mnt/other/file.sh");
}

// The relative path names a file that exists where the wrapper runs.
#[test]
fn relative_path_translation() {
    assert_eq!(
        translate_path_to_unix(".\\src\\main.rs".to_string(), true),
        Ok("./src/main.rs".to_string()));
}

#[test]
fn long_argument_path_translation() {
    assert_eq!(
        translate_path_to_unix("--file=C:\\some\\path.txt".to_owned(), false),
        Ok("--file=/mnt/c/some/path.txt".to_string()));
}

#[test]
fn relative_path_that_does_not_exist_is_kept() {
    assert_eq!(to_unix(".\\src\\main.rs", false), Ok(".\\src\\main.rs".to_string()));
    assert_eq!(to_unix("feature/branch", false), Ok("feature/branch".to_string()));
    assert_eq!(to_unix("", false), Ok("".to_string()));
    assert_eq!(to_unix("-m", false), Ok("-m".to_string()));
}

#[test]
fn drive_relative_path_needs_to_exist() {
    assert_eq!(to_unix("C:foo", false), Ok("C:foo".to_string()));
    assert_eq!(to_unix("C:foo", true), Ok("/mnt/c/foo".to_string()));
}

#[test]
fn separators_and_dots_are_normalised() {
    assert_eq!(to_unix("C:/a//b\\.\\c\\", false), Ok("/mnt/c/a/b/c".to_string()));
    assert_eq!(to_unix("C:\\a\\..\\b", false), Ok("/mnt/c/a/../b".to_string()));
    assert_eq!(to_unix("C:\\", false), Ok("/mnt/c".to_string()));
    assert_eq!(to_unix("Z:\\x", false), Ok("/mnt/z/x".to_string()));
}

#[test]
fn verbatim_disk_path_translation() {
    assert_eq!(
        to_unix("\\\\?\\C:\\Program Files\\Code\\code.exe", false),
        Ok("/mnt/c/Program Files/Code/code.exe".to_string()));
    assert_eq!(to_unix("\\\\?\\D:\\a/b", false), Ok("/mnt/d/a/b".to_string()));
}

#[test]
fn unsupported_prefixes_are_errors() {
    assert_eq!(to_unix("\\\\server\\share\\file", false), Err(PathError::UnsupportedPrefix));
    assert_eq!(to_unix("\\\\.\\COM1", false), Err(PathError::UnsupportedPrefix));
    assert_eq!(to_unix("\\\\?\\UNC\\server\\share", false), Err(PathError::UnsupportedPrefix));
    assert_eq!(to_unix("--file=//server/share", false), Err(PathError::UnsupportedPrefix));
    assert_eq!(translate_host_path("\\\\?\\Volume{x}\\"), Err(PathError::UnsupportedPrefix));
}

#[test]
fn prefix_forms() {
    assert_eq!(parse_prefix("c:\\x"), Some(Prefix::Disk('c')));
    assert_eq!(parse_prefix("\\\\?\\C:"), Some(Prefix::VerbatimDisk('C')));
    assert_eq!(parse_prefix("\\\\?\\C:x"), Some(Prefix::Verbatim));
    assert_eq!(parse_prefix("\\\\?\\UNC\\s\\t"), Some(Prefix::VerbatimUNC));
    assert_eq!(parse_prefix("\\\\.\\pipe"), Some(Prefix::DeviceNS));
    assert_eq!(parse_prefix("\\\\s\\t"), Some(Prefix::UNC));
    assert_eq!(parse_prefix("\\\\s"), None);
    assert_eq!(parse_prefix("\\\\s\\"), None);
    assert_eq!(parse_prefix("1:\\x"), None);
    assert_eq!(parse_prefix("./x"), None);
}

#[test]
fn drive_letters_and_mount_prefixes() {
    assert_eq!(get_drive_letter(&Prefix::Disk('C')), Some("c".to_string()));
    assert_eq!(get_drive_letter(&Prefix::VerbatimDisk('d')), Some("d".to_string()));
    assert_eq!(get_drive_letter(&Prefix::UNC), None);
    assert_eq!(get_prefix_for_drive("e"), "/mnt/e");
}

#[test]
fn long_argument_split() {
    assert_eq!(
        split_long_argument("--file=a=b"),
        ("--file=".to_string(), "a=b".to_string()));
    assert_eq!(split_long_argument("-f=a"), ("".to_string(), "-f=a".to_string()));
    assert_eq!(split_long_argument("--all"), ("".to_string(), "--all".to_string()));
    assert_eq!(to_unix("--message=a b", false), Ok("--message=a b".to_string()));
}

#[test]
fn reverse_translation_details() {
    assert_eq!(translate_path_to_win(b""), b"".to_vec());
    assert_eq!(translate_path_to_win(b"/mnt/c"), b"/mnt/c".to_vec());
    assert_eq!(translate_path_to_win(b"/mnt/c/"), b"c:/".to_vec());
    assert_eq!(translate_path_to_win(b"/mnt/Z/x"), b"Z:/x".to_vec());
    assert_eq!(translate_path_to_win(b"/mnt/1/x"), b"/mnt/1/x".to_vec());
    assert_eq!(translate_path_to_win(b"x/mnt/c/y"), b"xc:/y".to_vec());
    assert_eq!(translate_path_to_win(b"/mnt/c/a/mnt/d/b"), b"c:/a/mnt/d/b".to_vec());
    assert_eq!(translate_path_to_win(b"/mnt/c/a\t/mnt/d/b"), b"c:/a\td:/b".to_vec());
    assert_eq!(translate_path_to_win(b"\xff/mnt/c/\xfe"), b"\xffc:/\xfe".to_vec());
}

#[test]
fn reverse_translation_keeps_text_without_mounts() {
    let text = b"commit abc\nAuthor: someone <a@b>\n\n    /mnt/ msg /mnt/cc/x\n";
    assert_eq!(translate_path_to_win(text), text.to_vec());
}

#[test]
fn reverse_translation_of_lines_is_independent() {
    let a = b"origin  /mnt/c/path/ (fetch)".to_vec();
    let b = b"/mnt/other/file.sh".to_vec();
    let mut joined = a.clone();
    joined.push(b'\n');
    joined.extend_from_slice(&b);
    let mut expected = translate_path_to_win(&a);
    expected.push(b'\n');
    expected.extend_from_slice(&translate_path_to_win(&b));
    assert_eq!(translate_path_to_win(&joined), expected);
    assert_eq!(translate_path_to_win(&b), b);
}

#[test]
fn forward_then_reverse_round_trip() {
    for (host, back) in [
        ("d:\\test\\file.txt", "d:/test/file.txt"),
        ("C:\\Users\\me\\repo", "c:/Users/me/repo"),
        ("C:\\Users\\test\\a space.txt", "c:/Users/test/a space.txt"),
        ("E:\\Dokumente\\Übersicht\\数据.txt", "e:/Dokumente/Übersicht/数据.txt"),
    ] {
        let posix = to_unix(host, false).unwrap();
        assert_eq!(translate_path_to_win(posix.as_bytes()), back.as_bytes().to_vec());
    }
}

#[test]
fn escape_cases() {
    assert_eq!(shell_escape("status".to_string()), "status");
    assert_eq!(shell_escape("a b".to_string()), "\"a b\"");
    assert_eq!(shell_escape("a\nb".to_string()), "a$'\\n'b");
    assert_eq!(shell_escape("a b\nc".to_string()), "\"a b$'\\n'c\"");
    assert_eq!(shell_escape("".to_string()), "");
    assert_eq!(shell_escape("say \"hi\"".to_string()), "\"say \"hi\"\"");
}

#[test]
fn unquote_cases() {
    assert_eq!(unquote("\"C:\\a b\\code.exe\"".to_string()), "C:\\a b\\code.exe");
    assert_eq!(unquote("\"abc".to_string()), "ab");
    assert_eq!(unquote("\"".to_string()), "\"");
    assert_eq!(unquote("abc\"".to_string()), "abc\"");
    assert_eq!(unquote("\"ab\u{e9}".to_string()), "ab");
}

#[test]
fn editor_translation() {
    let editor = "\"C:\\Program Files\\Code\\code.exe\" --wait".to_string();
    // The quote is cut from the first word alone, so its last letter goes.
    assert_eq!(editor_command(&editor), "C:\\Progra");
    let editor = "\"C:\\Code\\code.cmd\"  --wait --new-window".to_string();
    assert_eq!(editor_command(&editor), "C:\\Code\\code.cmd");
    assert_eq!(
        translate_git_editor(editor.clone(), Some("\\\\?\\C:\\Code\\code.cmd".to_string())),
        Ok("/mnt/c/Code/code.cmd --wait --new-window".to_string()));
    assert_eq!(
        translate_git_editor(editor, None),
        Ok("C:\\Code\\code.cmd --wait --new-window".to_string()));
    assert_eq!(translate_git_editor("\"vim\"".to_string(), None), Ok("vim".to_string()));
    assert_eq!(translate_git_editor("vim".to_string(), None), Ok("vim".to_string()));
    assert_eq!(
        translate_git_editor("ed -s".to_string(), Some("\\\\srv\\share\\ed".to_string())),
        Err(PathError::UnsupportedPrefix));
}

#[test]
fn output_translation_subcommands() {
    let args = |v: &[&str]| v.iter().map(|s| s.to_string()).collect::<Vec<String>>();
    assert!(translates_output(&args(&["remote", "-v"])));
    assert!(translates_output(&args(&["-C", "x", "rev-parse", "--show-toplevel"])));
    assert!(!translates_output(&args(&["status"])));
    assert!(!translates_output(&args(&["remotes", "rev-pars"])));
    assert!(!translates_output(&args(&[])));
}

fn candidates(command: &str) -> Vec<String> {
    executable_candidates(command)
}

#[test]
fn executable_candidate_names() {
    assert_eq!(candidates("C:\\Code\\code"), vec!["C:\\Code\\code", "C:\\Code\\code.CMD", "C:\\Code\\code.EXE"]);
    assert_eq!(candidates("C:\\Code\\code.exe"), vec!["C:\\Code\\code", "C:\\Code\\code.CMD", "C:\\Code\\code.EXE"]);
    assert_eq!(candidates("vim"), vec!["vim", "vim.CMD", "vim.EXE"]);
    assert_eq!(candidates("a.b.c"), vec!["a.b", "a.b.CMD", "a.b.EXE"]);
}

#[test]
fn extension_replacement_edge_cases() {
    assert_eq!(replace_extension(".bashrc", "CMD"), ".bashrc.CMD");
    assert_eq!(replace_extension("a.", "CMD"), "a.CMD");
    assert_eq!(replace_extension("a.", ""), "a");
    assert_eq!(replace_extension("C:\\dir\\", "EXE"), "C:\\dir.EXE");
    assert_eq!(replace_extension("C:\\a\\.", "EXE"), "C:\\a.EXE");
    assert_eq!(replace_extension("x/y.txt", "CMD"), "x/y.CMD");
    assert_eq!(replace_extension("..", "CMD"), "..");
    assert_eq!(replace_extension("C:\\", "CMD"), "C:\\");
    assert_eq!(replace_extension("C:", "CMD"), "C:");
    assert_eq!(replace_extension("", "CMD"), "");
    assert_eq!(replace_extension("\\\\?\\C:\\a/b.x", "CMD"), "\\\\?\\C:\\a/b.CMD");
}
