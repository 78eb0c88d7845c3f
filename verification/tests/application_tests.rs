use std::cell::RefCell;
use std::collections::HashMap;
use yx::application::{
    AddYak, DoneYak, EditContext, ListYaks, MoveYak, PruneYaks, RemoveYak, ShowContext, SyncYaks,
};
use yx::domain::Yak;
use yx::errors::YakError;
use yx::ports::{LogPort, OutputPort, StoragePort, SyncPort};

struct MockStorage {
    yaks: RefCell<Vec<Yak>>,
    contexts: RefCell<HashMap<String, String>>,
}

impl MockStorage {
    fn new() -> Self {
        MockStorage { yaks: RefCell::new(Vec::new()), contexts: RefCell::new(HashMap::new()) }
    }

    fn add_yak(&self, name: &str, done: bool) {
        self.yaks.borrow_mut().push(Yak { name: name.to_string(), done, context: None });
    }

    fn was_created(&self, name: &str) -> bool {
        self.yaks.borrow().iter().any(|y| y.name == name)
    }

    fn yak_exists(&self, name: &str) -> bool {
        self.yaks.borrow().iter().any(|y| y.name == name)
    }

    fn get_yak_status(&self, name: &str) -> Option<bool> {
        self.yaks.borrow().iter().find(|y| y.name == name).map(|y| y.done)
    }

    fn count_yaks(&self) -> usize {
        self.yaks.borrow().len()
    }

    fn count_done_yaks(&self) -> usize {
        self.yaks.borrow().iter().filter(|y| y.done).count()
    }

    fn set_context(&self, name: &str, context: &str) {
        self.contexts.borrow_mut().insert(name.to_string(), context.to_string());
    }

    fn get_context(&self, name: &str) -> Option<String> {
        self.contexts.borrow().get(name).cloned()
    }
}

impl StoragePort for MockStorage {
    fn create_yak(&self, name: &str) -> Result<(), YakError> {
        self.add_yak(name, false);
        Ok(())
    }

    fn get_yak(&self, name: &str) -> Result<Yak, YakError> {
        self.yaks.borrow().iter().find(|y| y.name == name).cloned().ok_or_else(
            || YakError::Storage { detail: format!("yak '{}' does not exist", name) },
        )
    }

    fn list_yaks(&self) -> Result<Vec<Yak>, YakError> {
        Ok(self.yaks.borrow().clone())
    }

    fn mark_done(&self, name: &str, done: bool) -> Result<(), YakError> {
        let mut yaks = self.yaks.borrow_mut();
        if let Some(yak) = yaks.iter_mut().find(|y| y.name == name) {
            yak.done = done;
            Ok(())
        } else {
            Err(YakError::NotFound { name: name.to_string() })
        }
    }

    fn delete_yak(&self, name: &str) -> Result<(), YakError> {
        self.yaks.borrow_mut().retain(|y| y.name != name);
        Ok(())
    }

    fn rename_yak(&self, from: &str, to: &str) -> Result<(), YakError> {
        if self.yak_exists(to) {
            return Err(YakError::AlreadyExists { name: to.to_string() });
        }
        let mut yaks = self.yaks.borrow_mut();
        if let Some(yak) = yaks.iter_mut().find(|y| y.name == from) {
            yak.name = to.to_string();
            Ok(())
        } else {
            Err(YakError::NotFound { name: from.to_string() })
        }
    }

    fn read_context(&self, name: &str) -> Result<String, YakError> {
        Ok(self.get_context(name).unwrap_or_default())
    }

    fn write_context(&self, name: &str, text: &str) -> Result<(), YakError> {
        self.set_context(name, text);
        Ok(())
    }

    fn find_yak(&self, name: &str) -> Result<String, YakError> {
        if self.yak_exists(name) {
            Ok(name.to_string())
        } else {
            Err(YakError::NotFound { name: name.to_string() })
        }
    }
}

struct MockOutput {
    messages: RefCell<Vec<String>>,
}

impl MockOutput {
    fn new() -> Self {
        MockOutput { messages: RefCell::new(Vec::new()) }
    }

    fn last_message(&self) -> Option<String> {
        self.messages.borrow().last().cloned()
    }

    fn get_messages(&self) -> Vec<String> {
        self.messages.borrow().clone()
    }
}

impl OutputPort for MockOutput {
    fn success(&self, message: &str) {
        self.messages.borrow_mut().push(message.to_string());
    }

    fn error(&self, message: &str) {
        self.messages.borrow_mut().push(format!("ERROR: {}", message));
    }

    fn info(&self, message: &str) {
        self.messages.borrow_mut().push(message.to_string());
    }
}

struct MockLog;

impl LogPort for MockLog {
    fn log_command(&self, _command: &str) -> Result<(), YakError> {
        Ok(())
    }
}

struct MockSync {
    sync_called: RefCell<bool>,
}

impl MockSync {
    fn new() -> Self {
        MockSync { sync_called: RefCell::new(false) }
    }

    fn was_sync_called(&self) -> bool {
        *self.sync_called.borrow()
    }
}

impl SyncPort for MockSync {
    fn push(&self) -> Result<(), YakError> {
        panic!("not used by these tests")
    }

    fn pull(&self) -> Result<(), YakError> {
        panic!("not used by these tests")
    }

    fn sync(&self) -> Result<(), YakError> {
        *self.sync_called.borrow_mut() = true;
        Ok(())
    }
}

#[test]
fn test_add_yak_creates_yak() {
    let storage = MockStorage::new();
    let output = MockOutput::new();
    let use_case = AddYak::new(&storage, &output);

    use_case.execute("test-yak").unwrap();

    assert!(storage.was_created("test-yak"));
}

#[test]
fn test_add_yak_outputs_success() {
    let storage = MockStorage::new();
    let output = MockOutput::new();
    let use_case = AddYak::new(&storage, &output);

    use_case.execute("test-yak").unwrap();

    assert_eq!(output.last_message(), Some("Added yak 'test-yak'".to_string()));
}

#[test]
fn test_done_yak_marks_as_done() {
    let storage = MockStorage::new();
    storage.add_yak("test-yak", false);
    let output = MockOutput::new();
    let use_case = DoneYak::new(&storage, &output);

    use_case.execute("test-yak", false).unwrap();

    assert_eq!(storage.get_yak_status("test-yak"), Some(true));
}

#[test]
fn test_done_yak_outputs_success() {
    let storage = MockStorage::new();
    storage.add_yak("test-yak", false);
    let output = MockOutput::new();
    let use_case = DoneYak::new(&storage, &output);

    use_case.execute("test-yak", false).unwrap();

    assert_eq!(output.last_message(), Some("Marked 'test-yak' as done".to_string()));
}

#[test]
fn test_done_yak_with_undo_marks_as_not_done() {
    let storage = MockStorage::new();
    storage.add_yak("test-yak", true);
    let output = MockOutput::new();
    let use_case = DoneYak::new(&storage, &output);

    use_case.execute("test-yak", true).unwrap();

    assert_eq!(storage.get_yak_status("test-yak"), Some(false));
}

#[test]
fn test_done_yak_with_undo_outputs_success() {
    let storage = MockStorage::new();
    storage.add_yak("test-yak", true);
    let output = MockOutput::new();
    let use_case = DoneYak::new(&storage, &output);

    use_case.execute("test-yak", true).unwrap();

    assert_eq!(output.last_message(), Some("Marked 'test-yak' as not done".to_string()));
}

#[test]
fn test_done_yak_fails_for_nonexistent_yak() {
    let storage = MockStorage::new();
    let output = MockOutput::new();
    let use_case = DoneYak::new(&storage, &output);

    let result = use_case.execute("nonexistent", false);

    assert!(result.is_err());
}

#[test]
fn test_done_yak_refuses_incomplete_children() {
    let storage = MockStorage::new();
    storage.add_yak("parent", false);
    storage.add_yak("parent/child", false);
    let output = MockOutput::new();
    let use_case = DoneYak::new(&storage, &output);

    let result = use_case.execute("parent", false);

    assert!(result.is_err());
    assert!(result.unwrap_err().message().contains("incomplete children"));
}

#[test]
fn test_done_yak_recursive_marks_children() {
    let storage = MockStorage::new();
    storage.add_yak("parent", false);
    storage.add_yak("parent/child", false);
    let output = MockOutput::new();
    let use_case = DoneYak::new(&storage, &output);

    use_case.execute_recursive("parent").unwrap();

    assert_eq!(storage.get_yak_status("parent"), Some(true));
    assert_eq!(storage.get_yak_status("parent/child"), Some(true));
}

#[test]
fn test_edit_context_fails_for_nonexistent_yak() {
    let storage = MockStorage::new();
    let output = MockOutput::new();
    let use_case = EditContext::new(&storage, &output);

    let result = use_case.execute("nonexistent", "");

    assert!(result.is_err());
    assert!(result.unwrap_err().message().contains("not found"));
}

#[test]
fn test_edit_context_writes_content() {
    let storage = MockStorage::new();
    storage.add_yak("test-yak", false);
    let output = MockOutput::new();
    let use_case = EditContext::new(&storage, &output);

    use_case.execute("test-yak", "fresh notes").unwrap();

    assert_eq!(storage.get_context("test-yak"), Some("fresh notes".to_string()));
}

#[test]
fn test_list_empty_yaks() {
    let storage = MockStorage::new();
    let output = MockOutput::new();
    let use_case = ListYaks::new(&storage, &output);

    use_case.execute("markdown", None).unwrap();

    let messages = output.get_messages();
    assert_eq!(messages.len(), 1);
    assert_eq!(messages[0], "You have no yaks. Are you done?");
}

#[test]
fn test_list_single_yak() {
    let storage = MockStorage::new();
    let output = MockOutput::new();
    storage.add_yak("test-yak", false);
    let use_case = ListYaks::new(&storage, &output);

    use_case.execute("markdown", None).unwrap();

    let messages = output.get_messages();
    assert_eq!(messages.len(), 1);
    assert_eq!(messages[0], "- [ ] test-yak");
}

#[test]
fn test_list_sorts_done_first() {
    let storage = MockStorage::new();
    let output = MockOutput::new();
    storage.add_yak("done-yak", true);
    storage.add_yak("active-yak", false);
    let use_case = ListYaks::new(&storage, &output);

    use_case.execute("markdown", None).unwrap();

    let messages = output.get_messages();
    assert_eq!(messages.len(), 2);
    assert!(messages[0].contains("[x]"));
    assert!(messages[0].contains("done-yak"));
    assert_eq!(messages[1], "- [ ] active-yak");
}

#[test]
fn test_list_hierarchical_yak() {
    let storage = MockStorage::new();
    let output = MockOutput::new();
    storage.add_yak("parent/child", false);
    let use_case = ListYaks::new(&storage, &output);

    use_case.execute("markdown", None).unwrap();

    let messages = output.get_messages();
    assert_eq!(messages.len(), 2);
    assert_eq!(messages[0], "- [ ] parent");
    assert_eq!(messages[1], "  - [ ] child");
}

#[test]
fn test_list_plain_format() {
    let storage = MockStorage::new();
    let output = MockOutput::new();
    storage.add_yak("parent/child", false);
    let use_case = ListYaks::new(&storage, &output);

    use_case.execute("plain", None).unwrap();

    let messages = output.get_messages();
    assert_eq!(messages.len(), 2);
    assert_eq!(messages[0], "parent");
    assert_eq!(messages[1], "parent/child");
}

#[test]
fn test_move_yak_renames_yak() {
    let storage = MockStorage::new();
    storage.add_yak("old-name", false);
    let output = MockOutput::new();
    let use_case = MoveYak::new(&storage, &output);

    use_case.execute("old-name", "new-name").unwrap();

    assert!(!storage.yak_exists("old-name"));
    assert!(storage.yak_exists("new-name"));
}

#[test]
fn test_move_yak_outputs_success() {
    let storage = MockStorage::new();
    storage.add_yak("old-name", false);
    let output = MockOutput::new();
    let use_case = MoveYak::new(&storage, &output);

    use_case.execute("old-name", "new-name").unwrap();

    assert_eq!(output.last_message(), Some("Moved 'old-name' to 'new-name'".to_string()));
}

#[test]
fn test_move_yak_fails_for_nonexistent_source() {
    let storage = MockStorage::new();
    let output = MockOutput::new();
    let use_case = MoveYak::new(&storage, &output);

    let result = use_case.execute("nonexistent", "new-name");

    assert!(result.is_err());
}

#[test]
fn test_move_yak_fails_for_existing_target() {
    let storage = MockStorage::new();
    storage.add_yak("old-name", false);
    storage.add_yak("new-name", false);
    let output = MockOutput::new();
    let use_case = MoveYak::new(&storage, &output);

    let result = use_case.execute("old-name", "new-name");

    assert!(result.is_err());
}

#[test]
fn test_move_yak_rejects_invalid_target() {
    let storage = MockStorage::new();
    storage.add_yak("old-name", false);
    let output = MockOutput::new();
    let use_case = MoveYak::new(&storage, &output);

    let result = use_case.execute("old-name", "bad:name");

    assert!(result.is_err());
}

#[test]
fn test_prune_removes_all_done_yaks() {
    let storage = MockStorage::new();
    storage.add_yak("done1", true);
    storage.add_yak("done2", true);
    storage.add_yak("active", false);
    let output = MockOutput::new();
    let use_case = PruneYaks::new(&storage, &output, &MockLog);

    use_case.execute().unwrap();

    assert_eq!(storage.count_yaks(), 1);
    assert_eq!(storage.count_done_yaks(), 0);
}

#[test]
fn test_prune_is_silent_when_removing_one_yak() {
    let storage = MockStorage::new();
    storage.add_yak("done1", true);
    let output = MockOutput::new();
    let use_case = PruneYaks::new(&storage, &output, &MockLog);

    use_case.execute().unwrap();

    assert_eq!(output.last_message(), None);
    assert_eq!(storage.count_yaks(), 0);
}

#[test]
fn test_prune_is_silent_when_removing_multiple_yaks() {
    let storage = MockStorage::new();
    storage.add_yak("done1", true);
    storage.add_yak("done2", true);
    storage.add_yak("done3", true);
    let output = MockOutput::new();
    let use_case = PruneYaks::new(&storage, &output, &MockLog);

    use_case.execute().unwrap();

    assert_eq!(output.last_message(), None);
    assert_eq!(storage.count_yaks(), 0);
}

#[test]
fn test_prune_handles_no_done_yaks() {
    let storage = MockStorage::new();
    storage.add_yak("active1", false);
    storage.add_yak("active2", false);
    let output = MockOutput::new();
    let use_case = PruneYaks::new(&storage, &output, &MockLog);

    use_case.execute().unwrap();

    assert_eq!(storage.count_yaks(), 2);
    assert_eq!(output.last_message(), None);
}

#[test]
fn test_prune_handles_empty_list() {
    let storage = MockStorage::new();
    let output = MockOutput::new();
    let use_case = PruneYaks::new(&storage, &output, &MockLog);

    use_case.execute().unwrap();

    assert_eq!(storage.count_yaks(), 0);
    assert_eq!(output.last_message(), None);
}

#[test]
fn test_remove_yak_deletes_yak() {
    let storage = MockStorage::new();
    storage.add_yak("test-yak", false);
    let output = MockOutput::new();
    let use_case = RemoveYak::new(&storage, &output, &MockLog);

    use_case.execute("test-yak").unwrap();

    assert!(!storage.yak_exists("test-yak"));
}

#[test]
fn test_remove_yak_outputs_success() {
    let storage = MockStorage::new();
    storage.add_yak("test-yak", false);
    let output = MockOutput::new();
    let use_case = RemoveYak::new(&storage, &output, &MockLog);

    use_case.execute("test-yak").unwrap();

    assert_eq!(output.last_message(), Some("Removed 'test-yak'".to_string()));
}

#[test]
fn test_remove_yak_fails_for_nonexistent_yak() {
    let storage = MockStorage::new();
    let output = MockOutput::new();
    let use_case = RemoveYak::new(&storage, &output, &MockLog);

    let result = use_case.execute("nonexistent");

    assert!(result.is_err());
}

#[test]
fn test_show_context_fails_for_nonexistent_yak() {
    let storage = MockStorage::new();
    let output = MockOutput::new();
    let use_case = ShowContext::new(&storage, &output);

    let result = use_case.execute("nonexistent");

    assert!(result.is_err());
    assert!(result.unwrap_err().message().contains("does not exist"));
}

#[test]
fn test_show_context_displays_yak_name() {
    let storage = MockStorage::new();
    let output = MockOutput::new();
    storage.add_yak("test-yak", false);
    let use_case = ShowContext::new(&storage, &output);

    use_case.execute("test-yak").unwrap();

    let messages = output.get_messages();
    assert_eq!(messages[0], "test-yak");
}

#[test]
fn test_show_context_displays_empty_context() {
    let storage = MockStorage::new();
    let output = MockOutput::new();
    storage.add_yak("test-yak", false);
    let use_case = ShowContext::new(&storage, &output);

    use_case.execute("test-yak").unwrap();

    let messages = output.get_messages();
    assert_eq!(messages.len(), 1);
    assert_eq!(messages[0], "test-yak");
}

#[test]
fn test_show_context_displays_context_with_blank_line() {
    let storage = MockStorage::new();
    let output = MockOutput::new();
    storage.add_yak("test-yak", false);
    storage.set_context("test-yak", "This is some context");
    let use_case = ShowContext::new(&storage, &output);

    use_case.execute("test-yak").unwrap();

    let messages = output.get_messages();
    assert_eq!(messages.len(), 3);
    assert_eq!(messages[0], "test-yak");
    assert_eq!(messages[1], "");
    assert_eq!(messages[2], "This is some context");
}

#[test]
fn test_show_context_displays_multiline_context() {
    let storage = MockStorage::new();
    let output = MockOutput::new();
    storage.add_yak("test-yak", false);
    storage.set_context("test-yak", "Line 1\nLine 2\nLine 3");
    let use_case = ShowContext::new(&storage, &output);

    use_case.execute("test-yak").unwrap();

    let messages = output.get_messages();
    assert_eq!(messages.len(), 3);
    assert_eq!(messages[0], "test-yak");
    assert_eq!(messages[1], "");
    assert_eq!(messages[2], "Line 1\nLine 2\nLine 3");
}

#[test]
fn test_sync_calls_sync_port() {
    let sync = MockSync::new();
    let output = MockOutput::new();
    let use_case = SyncYaks::new(&sync, &output);

    use_case.execute().unwrap();

    assert!(sync.was_sync_called());
}

#[test]
fn test_error_messages_name_the_yak() {
    let e = YakError::NotFound { name: "dx".to_string() };
    assert_eq!(e.message(), "yak 'dx' not found");
    let a = YakError::Ambiguous { name: "d".to_string() };
    assert_eq!(a.message(), "yak name 'd' is ambiguous");
    let x = YakError::AlreadyExists { name: "dx".to_string() };
    assert_eq!(x.message(), "Yak 'dx' already exists");
}

#[test]
fn test_list_only_done_filter() {
    let storage = MockStorage::new();
    let output = MockOutput::new();
    storage.add_yak("done-yak", true);
    storage.add_yak("active-yak", false);
    let use_case = ListYaks::new(&storage, &output);

    use_case.execute("plain", Some("done")).unwrap();

    let messages = output.get_messages();
    assert_eq!(messages.len(), 1);
    assert_eq!(messages[0], "done-yak");
}

#[test]
fn test_list_only_not_done_filter() {
    let storage = MockStorage::new();
    let output = MockOutput::new();
    storage.add_yak("done-yak", true);
    storage.add_yak("active-yak", false);
    let use_case = ListYaks::new(&storage, &output);

    use_case.execute("plain", Some("not-done")).unwrap();

    let messages = output.get_messages();
    assert_eq!(messages.len(), 1);
    assert_eq!(messages[0], "active-yak");
}
