//! End-to-end tests of the Ansible rules over annotated fixtures.

use globstar::injection::Injection;
use globstar::linter::Linter;
use globstar::rules::ansible::{bash_command_advice, is_ansible_builtin, INJECTIONS, SCOPES};
use globstar::rules::Validator;
use globstar::ts::{bash_language, yaml_language};

fn check(validator: Validator, fixture: &str) {
    let linter = Linter::new(yaml_language())
        .validator(validator)
        .scopes(SCOPES)
        .comment_str("#");
    if let Err(m) = linter.test(fixture) {
        panic!("{}", m);
    }
}

fn check_with_injection(validator: Validator, fixture: &str) {
    let injection = Injection::new(INJECTIONS, yaml_language(), bash_language())
        .map_err(|_| "the injection query must compile")
        .unwrap();
    let linter = Linter::new(yaml_language())
        .validator(validator)
        .scopes(SCOPES)
        .injection(injection)
        .comment_str("#");
    if let Err(m) = linter.test(fixture) {
        panic!("{}", m);
    }
}

#[test]
fn apt_get() {
    check_with_injection(
        Validator::AnsibleCommandInsteadOfModule,
        r#"
            - hosts: all
              tasks:
                - name: run apt-get update
                  command: apt-get update
                         # ^^^^^^^^^^^^^^ Using command `apt-get` in place of `apt-get` module
            "#,
    );
}

#[test]
fn git_no_match() {
    check_with_injection(
        Validator::AnsibleCommandInsteadOfModule,
        r#"
            - hosts: all
              tasks:
                - name: print current git branch
                  command: git branch
                - name: print git log
                  command: git log
                - name: install git lfs support
                  command: git lfs install
            "#,
    );
}

#[test]
fn systemd() {
    check_with_injection(
        Validator::AnsibleCommandInsteadOfModule,
        r#"
            - hosts: all
              tasks:
                - name: restart sshd
                  command: systemctl restart sshd
                         # ^^^^^^^^^^^^^^^^^^^^^^ Using command `systemctl` in place of `systemd` module
            "#,
    );
}

#[test]
fn systemd_no_match() {
    check_with_injection(
        Validator::AnsibleCommandInsteadOfModule,
        r#"
            - hosts: all
              tasks:
                - name: show systemctl service status
                  command: systemctl status systemd-timesyncd
                - name: show systemd environment
                  command: systemctl show-environment
                - name: set systemd runlevel
                  command: systemctl set-default multi-user.target
            "#,
    );
}

#[test]
fn yum() {
    check_with_injection(
        Validator::AnsibleCommandInsteadOfModule,
        r#"
            - hosts: all
              tasks:
                - name: run yum update
                  command: yum update
                         # ^^^^^^^^^^ Using command `yum` in place of `yum` module
            "#,
    );
}

#[test]
fn yum_no_match() {
    check_with_injection(
        Validator::AnsibleCommandInsteadOfModule,
        r#"
            - hosts: all
              tasks:
                - name: run yum clean
                  command: yum clean
            "#,
    );
}

#[test]
fn shell_script_no_match() {
    check_with_injection(
        Validator::AnsibleCommandInsteadOfModule,
        r#"
            - hosts: all
              tasks:
                - name: big script
                  shell: |
                  git checkout master
                  git pull -r
                  git checkout -
                  git rebase master
            "#,
    );
}

#[test]
fn deprecated_local_action_trivial() {
    check(
        Validator::AnsibleDeprecatedLocalAction,
        r#"
            ---
            tasks:
              - name: Take out of load balancer pool
                local_action: ansible.builtin.command /usr/bin/take_out_of_pool {{ inventory_hostname }}
              # ^^^^^^^^^^^^ Prefer `delegate_to: localhost` instead of `local_action`

              - name: Add back to load balancer pool
                local_action: ansible.builtin.command /usr/bin/add_back_to_pool {{ inventory_hostname }}
              # ^^^^^^^^^^^^ Prefer `delegate_to: localhost` instead of `local_action`
            "#,
    )
}

#[test]
fn literal_compare_trivial() {
    check(
        Validator::AnsibleLiteralCompare,
        r#"
            ---
            - name: example task
              debug:
                msg: test
              when: my_var == false
                  # ^^^^^^^^^^^^^^^ Consider using `when: var` or `when: not var` instead of boolean comparison
            "#,
    )
}

#[test]
fn singleton_list() {
    check(
        Validator::AnsibleLiteralCompare,
        r#"
            ---
            - name: another example task
              debug:
                msg: test
              when:
                - my_var == false
                # ^^^^^^^^^^^^^^^ Consider using `when: var` or `when: not var` instead of boolean comparison
            "#,
    )
}

#[test]
fn multi_item_list() {
    check(
        Validator::AnsibleLiteralCompare,
        r#"
            ---
            - name: another example task
              debug:
                msg: test
              when:
                - my_var == false
                # ^^^^^^^^^^^^^^^ Consider using `when: var` or `when: not var` instead of boolean comparison
                - my_var == True
                # ^^^^^^^^^^^^^^ Consider using `when: var` or `when: not var` instead of boolean comparison
            "#,
    )
}

#[test]
fn no_match_trivial() {
    check(
        Validator::AnsibleLiteralCompare,
        r#"
            ---
            - name: another example task
              debug:
                msg: test
              when: my_var
            "#,
    )
}

#[test]
fn no_match_list() {
    check(
        Validator::AnsibleLiteralCompare,
        r#"
            ---
            - name: another example task
              debug:
                msg: test
              when:
                - my_var
            "#,
    )
}

#[test]
fn partial_become_trivial() {
    check(
        Validator::AnsiblePartialBecome,
        r#"
            ---
            - name: Run a command as the apache user
              command: somecommand
              become_user: apache
            # ^^^^^^^^^^^ Using `become_user` without `become`
            "#,
    )
}

#[test]
fn partial_become_no_match() {
    check(
        Validator::AnsiblePartialBecome,
        r#"
            ---
            - name: Run a command as the apache user
              command: somecommand
              become_user: apache
              become: yes
            "#,
    )
}

#[test]
fn ansible_variable_shadowing_trivial() {
    check(
        Validator::AnsibleVariableShadowing,
        r#"
            ---
            product:
                - sku         : BL394D
                  sku         : BL394D
                # ^^^ Duplicate key `sku`, already defined on line 4, col 7
            "#,
    )
}

#[test]
fn git() {
    check(
        Validator::AnsibleVcsLatest,
        r#"
            ---
            - git:
                repo: 'https://foosball.example.org/path/to/repo.git'
                dest: /srv/checkout
                version: latest
              # ^^^^^^^ This git checkout does not contain an explicit version
            "#,
    )
}

#[test]
fn mercurial() {
    check(
        Validator::AnsibleVcsLatest,
        r#"
            ---
            - hg:
                repo: 'https://foosball.example.org/path/to/repo.git'
                dest: /srv/checkout
                revision: default
              # ^^^^^^^^ This mercurial checkout does not contain an explicit version
            "#,
    )
}

#[test]
fn vcs_latest_no_match() {
    check(
        Validator::AnsibleVcsLatest,
        r#"
            ---
            - git:
                repo: 'https://foosball.example.org/path/to/repo.git'
                dest: /srv/checkout
                version: release-0.22
            "#,
    )
}

#[test]
fn is_ansible_builtin_matches_bare_and_prefixed_names() {
    assert!(is_ansible_builtin("git", "git"));
    assert!(is_ansible_builtin("ansible.builtin.git", ".git"));
    assert!(!is_ansible_builtin("ansible.builtin.git", "git"));
    assert!(!is_ansible_builtin("hg", "git"));
}

#[test]
fn bash_command_advice_decides_from_the_tables() {
    let advice = bash_command_advice(b"systemctl", Some(b"restart")).unwrap();
    assert_eq!(advice, "Using command `systemctl` in place of `systemd` module");
    assert!(bash_command_advice(b"systemctl", Some(b"status")).is_none());
    assert!(bash_command_advice(b"ls", None).is_none());
    assert_eq!(
        bash_command_advice(b"tar", None).unwrap(),
        "Using command `tar` in place of `unarchive` module"
    );
}

#[test]
fn path_qualified_command_draws_advice_by_its_file_name() {
    check_with_injection(
        Validator::AnsibleCommandInsteadOfModule,
        r#"
            - hosts: all
              tasks:
                - name: unpack a release
                  command: /usr/bin/tar xf release.tar
                         # ^^^^^^^^^^^^^^^^^^^^^^^^^^^ Using command `tar` in place of `unarchive` module
            "#,
    );
}
