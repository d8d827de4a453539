use azure_storage_cli::polish::{finish_readme, readme, replace_all_in, replace_first_in, trim_lines, ReadmeNames};
use azure_storage_cli::tree::CommandNode;

fn names() -> ReadmeNames {
    ReadmeNames {
        binary: "azure-storage-cli".to_string(),
        alias: "azs".to_string(),
        suffixed_alias: "azs.exe".to_string(),
        title: "Azure Storage CLI".to_string(),
        description: "D".to_string(),
    }
}

#[test]
fn replace_all_non_overlapping() {
    assert_eq!(replace_all_in("aaaa", "aa", "b"), "bb");
    assert_eq!(replace_all_in("xaaay", "aa", "-"), "x-ay");
    assert_eq!(replace_all_in("abc", "", "z"), "abc");
    assert_eq!(replace_all_in("", "a", "z"), "");
}

#[test]
fn replace_first_only_once() {
    assert_eq!(replace_first_in("# azs\n## azs a\n", "# azs", "# T"), "# T\n## azs a\n");
    assert_eq!(replace_first_in("abab", "ab", "x"), "xab");
    assert_eq!(replace_first_in("abc", "zz", "x"), "abc");
}

#[test]
fn trim_lines_strips_and_drops_final_newline() {
    assert_eq!(trim_lines("a  \nb\t\n"), "a\nb");
    assert_eq!(trim_lines(""), "");
    assert_eq!(trim_lines("\n"), "");
    assert_eq!(trim_lines("a\r\n\u{3000}\nc "), "a\n\nc");
}

#[test]
fn finish_readme_passes() {
    let doc = "# azure-storage-cli\n\n```\nUsage: azure-storage-cli.exe x  \n```\n## azure-storage-cli a\n";
    let out = finish_readme(doc, &names());
    assert_eq!(out, "# Azure Storage CLI\n\nD\n\n```\nUsage: azs x\n```\n## azs a");
}

#[test]
fn finish_readme_collapses_two_blank_lines() {
    let out = finish_readme("a  \n \n\t\nb\n", &names());
    assert_eq!(out, "a\n\nb");
}

#[test]
fn retitle_leaves_other_headings() {
    let root = CommandNode {
        name: "azure-storage-cli".to_string(),
        positionals: vec![],
        usage: "Usage: azure-storage-cli".to_string(),
        hidden: false,
        children: vec![CommandNode::leaf("account".to_string(), "Usage: azure-storage-cli account".to_string())],
    };
    let out = readme(&root, &names());
    let lines: Vec<&str> = out.lines().collect();
    assert_eq!(lines[0], "# Azure Storage CLI");
    assert_eq!(lines[1], "");
    assert_eq!(lines[2], "D");
    assert!(out.contains("\n## azs account\n"));
    assert_eq!(out.matches("# Azure Storage CLI").count(), 1);
}
