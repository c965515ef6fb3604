use spawnhere::apps::{app_from_entry, app_of, arrange, sanitize_exec, App, DesktopFields};

#[test]
fn sanitize_strips_field_codes() {
    assert_eq!(sanitize_exec("firefox %U"), "firefox");
    assert_eq!(sanitize_exec("foo --bar %f"), "foo --bar");
    assert_eq!(sanitize_exec("env VAR=1 cmd %F %i"), "env VAR=1 cmd");
}

#[test]
fn sanitize_preserves_literal_percent() {
    assert_eq!(sanitize_exec("foo %% bar"), "foo % bar");
}

#[test]
fn sanitize_handles_no_codes() {
    assert_eq!(sanitize_exec("kitty"), "kitty");
}

#[test]
fn sanitize_keeps_other_percent_signs() {
    assert_eq!(sanitize_exec("date +%Y %"), "date +%Y %");
    assert_eq!(sanitize_exec("a%%f\t b"), "a%f b");
    assert_eq!(sanitize_exec(" %u %c "), "");
}

fn entry(lines: &str) -> String {
    format!("[Desktop Entry]\n{lines}")
}

fn read(lines: &str) -> Option<App> {
    app_from_entry("/apps/foo.desktop", &entry(lines), &vec![], Some("foo".to_string()))
}

#[test]
fn an_entry_becomes_an_application() {
    let app = read("Type=Application\nName=Foo Viewer\nExec=foo --view %F\nIcon=foo-icon\n").unwrap();
    assert_eq!(app.name, "Foo Viewer");
    assert_eq!(app.command, "foo --view");
    assert_eq!(app.icon.as_deref(), Some("foo-icon"));
}

#[test]
fn a_nameless_entry_takes_the_stem() {
    let app = read("Type=Application\nExec=foo\n").unwrap();
    assert_eq!(app.name, "foo");
    let none = app_from_entry("/x.desktop", &entry("Exec=foo\n"), &vec![], None).unwrap();
    assert_eq!(none.name, "?");
}

#[test]
fn a_translated_name_is_taken() {
    let text = entry("Type=Application\nName=Files\nName[de]=Dateien\nExec=files\n");
    let app = app_from_entry("/f.desktop", &text, &vec!["de".to_string()], None).unwrap();
    assert_eq!(app.name, "Dateien");
}

#[test]
fn entries_that_are_not_offered() {
    assert!(read("Type=Application\nName=A\nExec=a\nNoDisplay=true\n").is_none());
    assert!(read("Type=Application\nName=A\nExec=a\nHidden=true\n").is_none());
    assert!(read("Type=Link\nName=A\nExec=a\n").is_none());
    assert!(read("Type=Application\nName=A\n").is_none());
    assert!(read("Type=Application\nName=A\nExec=%U\n").is_none());
    assert!(read("Type=Application\nName=A\nExec=a\nHidden=false\n").is_some());
}

#[test]
fn fields_decide_what_is_offered() {
    let fields = |hidden: Option<&str>| DesktopFields {
        no_display: false,
        hidden: hidden.map(str::to_string),
        kind: None,
        command: Some("mpv %U".to_string()),
        icon: None,
        name: Some("mpv".to_string()),
    };
    assert_eq!(app_of(fields(None), None).unwrap().command, "mpv");
    assert!(app_of(fields(Some("true")), None).is_none());
    assert!(app_of(fields(Some("True")), None).is_some());
}

fn app(name: &str, command: &str) -> App {
    App { name: name.to_string(), command: command.to_string(), icon: None }
}

#[test]
fn applications_are_arranged_by_name() {
    let list = arrange(vec![
        app("zed", "zed"),
        app("Firefox", "firefox"),
        app("ÄRGER", "x"),
        app("firefox", "firefox"),
        app("Atom", "atom"),
    ]);
    let names: Vec<&str> = list.iter().map(|a| a.name.as_str()).collect();
    assert_eq!(names, ["Atom", "Firefox", "zed", "ÄRGER"]);
}

#[test]
fn a_gettext_domain_changes_nothing() {
    let app = read("Type=Application\nName=Files\nExec=files\nX-Ubuntu-Gettext-Domain=a\0b\n");
    assert_eq!(app.unwrap().name, "Files");
}
