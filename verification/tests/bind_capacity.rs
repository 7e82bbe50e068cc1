//! Dense-table capacity guards of bind.

use wyrd::runtime::{checked_delay_buffer_len, delay_buffer_layout, intern_command, intern_host_path};
use wyrd::runtime_error::BindError;

#[test]
fn defensive_compact_capacity_guards_report_the_next_entry() {
    let overflow_index = usize::from(u16::MAX) + 1;
    let mut path_names = vec![String::new(); overflow_index];
    assert_eq!(
        intern_host_path(1, "overflow", &mut path_names, "path-capacity"),
        Err(BindError::CapacityExceeded {
            weave_id: String::from("path-capacity"),
            resource: "host path",
            count: overflow_index + 1,
        })
    );

    let mut cmd_names = vec![String::new(); overflow_index];
    assert_eq!(
        intern_command(1, "overflow", &mut cmd_names, "command-capacity"),
        Err(BindError::CapacityExceeded {
            weave_id: String::from("command-capacity"),
            resource: "command",
            count: overflow_index + 1,
        })
    );

    assert_eq!(
        delay_buffer_layout(overflow_index, 1, "delay-offset-capacity"),
        Err(BindError::CapacityExceeded {
            weave_id: String::from("delay-offset-capacity"),
            resource: "delay buffer offset",
            count: overflow_index,
        })
    );
    assert_eq!(
        checked_delay_buffer_len(usize::MAX, 1, "delay-overflow"),
        Err(BindError::CapacityExceeded {
            weave_id: String::from("delay-overflow"),
            resource: "delay buffer",
            count: usize::MAX,
        })
    );
}

#[test]
fn interning_returns_existing_and_new_ids() {
    let mut names: Vec<String> = Vec::new();
    let a = intern_host_path(9, "a", &mut names, "w").unwrap();
    let b = intern_host_path(9, "b", &mut names, "w").unwrap();
    let a2 = intern_host_path(9, "a", &mut names, "w").unwrap();
    assert_eq!(a, a2);
    assert_ne!(a, b);
    assert_eq!(names, vec![String::from("a"), String::from("b")]);
    assert_eq!(delay_buffer_layout(4, 3, "w"), Ok((4, 7)));
    assert_eq!(checked_delay_buffer_len(2, 3, "w"), Ok(5));
}
