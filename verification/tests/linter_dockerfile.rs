//! End-to-end tests of the container-build-file rules over annotated
//! fixtures.

use globstar::linter::Linter;
use globstar::rules::Validator;
use globstar::ts::dockerfile_language;

fn check(validator: Validator, fixture: &str) {
    let linter = Linter::new(dockerfile_language()).validator(validator).comment_str("#");
    if let Err(m) = linter.test(fixture) {
        panic!("{}", m);
    }
}

#[test]
fn empty_label_trivial() {
    check(
        Validator::DockerfileEmptyLabel,
        r#"
            FROM abc
            LABEL aha=""
                # ^^^ Found empty label: `aha`
            LABEL abc=""
                # ^^^ Found empty label: `abc`
            "#,
    )
}

#[test]
fn relative_workdir_trivial() {
    check(
        Validator::DockerfileRelativeWorkdir,
        r#"
            WORKDIR foo/bar
                  # ^^^^^^^ Found relative path to WORKDIR directive: `foo/bar`
            WORKDIR /abc/def
            "#,
    )
}

#[test]
fn run_cd_trivial() {
    check(
        Validator::DockerfileRunCd,
        r#"
            RUN cd ..
              # ^^^^^ Use `WORKDIR` directive instead of `RUN cd`
            RUN git clone x.git
            "#,
    )
}

#[test]
fn shell_command_entry_point_trivial() {
    check(
        Validator::DockerfileShellCommandEntryPoint,
        r#"
            ENTRYPOINT some_cmd
          # ^^^^^^^^^^^^^^^^^^^ Prefer JSON array format instead of shell command

            ENTRYPOINT ["some_cmd"]

            CMD some_cmd
          # ^^^^^^^^^^^^ Prefer JSON array format instead of shell command

            CMD ["some_cmd"]
            "#,
    )
}

#[test]
fn unpinned_tag_trivial() {
    check(
        Validator::DockerfileUnpinnedTag,
        r#"
            FROM abc:latest
               # ^^^ Consider pinning the version of `abc` explicitly
            RUN git clone x.git
            "#,
    )
}
