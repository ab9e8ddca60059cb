use ezekiel::dispatch::{dispatch, metadata_source, progress_line, Action, MetadataSource};
use ezekiel::path::{
    fragment_path, has_extension, is_public, is_visible, mirror, page_path, relative_path,
};

#[test]
fn plain_paths_are_visible_and_public() {
    for path in ["index.html", "./index.html", "docs/guide/intro.md", "./a/b/c.txt"] {
        assert!(is_visible(path), "{path}");
        assert!(is_public(path), "{path}");
    }
}

#[test]
fn pieces_without_a_name_are_passed_over() {
    for path in ["", ".", "..", "./", "/", "a//b", "./a/./b", "a/../b", "/abs/file"] {
        assert!(is_visible(path), "{path}");
        assert!(is_public(path), "{path}");
    }
}

#[test]
fn hidden_name_hides_the_path() {
    assert!(!is_visible(".git"));
    assert!(!is_visible("./.git/config"));
    assert!(!is_visible("docs/.cache/page.md"));
    assert!(!is_visible("docs/page.md/.swp"));
    assert!(!is_visible("..."));
    assert!(!is_visible("a/..b"));
}

#[test]
fn hidden_name_does_not_make_a_path_private() {
    assert!(is_public(".git"));
    assert!(is_public("./.git/config"));
}

#[test]
fn private_name_keeps_the_path_from_publication() {
    assert!(!is_public("_draft.md"));
    assert!(!is_public("./_data/site.yml"));
    assert!(!is_public("pages/_old/index.html"));
    assert!(is_visible("_draft.md"));
    assert!(is_visible("./_data/site.yml"));
}

#[test]
fn marker_counts_only_at_the_start_of_a_name() {
    assert!(is_visible("a.b/c.d"));
    assert!(is_public("a_b/c_d"));
    assert!(is_public("a/b_"));
}

#[test]
fn output_tree_is_neither_visible_nor_public() {
    for path in ["www", "./www", "www/index.html", "./www/a/b.css", "a/www/b"] {
        assert!(!is_visible(path), "{path}");
        assert!(!is_public(path), "{path}");
    }
}

#[test]
fn names_that_only_resemble_the_output_tree_are_kept() {
    for path in ["wwww", "ww", "www.html", "a/xwww", "WWW"] {
        assert!(is_visible(path), "{path}");
        assert!(is_public(path), "{path}");
    }
}

#[test]
fn child_is_visible_when_parent_and_name_are() {
    let parents = ["", ".", "a", "a/.b", "www", "_p"];
    let names = ["c", ".c", "_c", "www", "..", ""];
    for parent in parents {
        for name in names {
            let child = format!("{parent}/{name}");
            assert_eq!(is_visible(&child), is_visible(parent) && is_visible(name), "{child}");
            assert_eq!(is_public(&child), is_public(parent) && is_public(name), "{child}");
        }
    }
}

#[test]
fn extension_is_what_follows_the_last_dot_of_the_last_name() {
    assert!(has_extension("a.yml", "yml"));
    assert!(has_extension("./docs/a.b.md", "md"));
    assert!(has_extension("a.", ""));
    assert!(has_extension(".a.yml", "yml"));
    assert!(!has_extension("a.yml", "md"));
    assert!(!has_extension("a.yml", "ym"));
    assert!(!has_extension("a.yml", ".yml"));
    assert!(!has_extension("yml", "yml"));
    assert!(!has_extension(".yml", "yml"));
    assert!(!has_extension("a.yml/b", "yml"));
    assert!(!has_extension("a.yml/", "yml"));
    assert!(!has_extension("..", ""));
    assert!(!has_extension("", ""));
}

#[test]
fn relative_path_drops_one_leading_marker() {
    assert_eq!(relative_path("./a/b.md"), "a/b.md");
    assert_eq!(relative_path("a/b.md"), "a/b.md");
    assert_eq!(relative_path("././a"), "./a");
    assert_eq!(relative_path("./"), "");
    assert_eq!(relative_path("."), ".");
    assert_eq!(relative_path(".a"), ".a");
    assert_eq!(relative_path(""), "");
}

#[test]
fn mirror_places_the_path_under_the_output_tree() {
    assert_eq!(mirror("./css/site.css"), "www/css/site.css");
    assert_eq!(mirror("index.html"), "www/index.html");
    assert_eq!(mirror("päge/ü.txt"), "www/päge/ü.txt");
}

#[test]
fn page_path_swaps_the_markdown_extension() {
    assert_eq!(page_path("./page.md"), "www/page.html");
    assert_eq!(page_path("docs/a.b.md"), "www/docs/a.b.html");
    assert_eq!(page_path("notes"), "www/notes.html");
    assert_eq!(page_path("a.md.md"), "www/a.md.html");
    assert_eq!(page_path(".md"), "www/.html");
}

#[test]
fn fragment_path_is_the_page_path_with_partial() {
    assert_eq!(fragment_path("./page.md"), "www/page.html.partial");
    assert_eq!(fragment_path("docs/a.md"), "www/docs/a.html.partial");
}

#[test]
fn targets_are_never_taken_for_sources() {
    for path in ["./a.md", "b/c.html", "_x", ".y", "", "www/z"] {
        for target in [mirror(path), page_path(path), fragment_path(path)] {
            assert!(!is_visible(&target), "{target}");
            assert!(!is_public(&target), "{target}");
            assert_eq!(dispatch(&target), None);
            assert_eq!(metadata_source(&target), None);
        }
    }
}

#[test]
fn metadata_pass_reads_structured_and_markdown_files() {
    assert_eq!(metadata_source("./a.yml"), Some(MetadataSource::Full));
    assert_eq!(metadata_source("./posts/one.md"), Some(MetadataSource::Preamble));
    assert_eq!(metadata_source("_data/site.yml"), Some(MetadataSource::Full));
    assert_eq!(metadata_source("_draft.md"), Some(MetadataSource::Preamble));
    assert_eq!(metadata_source("index.html"), None);
    assert_eq!(metadata_source("a.yaml"), None);
    assert_eq!(metadata_source("a.YML"), None);
    assert_eq!(metadata_source(".hidden/a.yml"), None);
    assert_eq!(metadata_source("www/a.yml"), None);
    assert_eq!(metadata_source("yml"), None);
}

#[test]
fn publish_pass_picks_the_action_by_extension() {
    assert_eq!(dispatch("./a.yml"), Some(Action::Skip));
    assert_eq!(dispatch("./index.html"), Some(Action::Html));
    assert_eq!(dispatch("./posts/one.md"), Some(Action::Markdown));
    assert_eq!(dispatch("./css/site.css"), Some(Action::Copy));
    assert_eq!(dispatch("./README"), Some(Action::Copy));
    assert_eq!(dispatch("./a.htm"), Some(Action::Copy));
}

#[test]
fn publish_pass_leaves_out_hidden_and_private_files() {
    assert_eq!(dispatch("./_draft.md"), None);
    assert_eq!(dispatch("./_data/site.yml"), None);
    assert_eq!(dispatch("./.gitignore"), None);
    assert_eq!(dispatch("./www/index.html"), None);
    assert_eq!(dispatch("./a/_b/c.css"), None);
}

#[test]
fn every_rendered_markdown_source_was_read_for_metadata() {
    for path in ["a.md", "./b/c.md", "_d.md", ".e.md", "www/f.md", "g.yml", "h.html", "i"] {
        if dispatch(path) == Some(Action::Markdown) {
            assert_eq!(metadata_source(path), Some(MetadataSource::Preamble), "{path}");
        }
        if dispatch(path).is_some() {
            assert!(is_visible(path) && is_public(path), "{path}");
        }
    }
}

#[test]
fn progress_line_names_the_action_and_the_path() {
    assert_eq!(progress_line(Action::Skip, "./a.yml"), "SKIP\t a.yml");
    assert_eq!(progress_line(Action::Html, "index.html"), "HTML\t index.html");
    assert_eq!(progress_line(Action::Markdown, "./p/q.md"), "MD\t p/q.md");
    assert_eq!(progress_line(Action::Copy, "./x.css"), "COPY\t x.css");
}
