//! Logic of the terminal interface: input fields, the JSON viewers, log
//! list arithmetic, log-detail sections and their styling, automatic
//! highlighting, and the device picker's rows, scrolling and click regions.

pub mod input_field;
pub mod bare_window;
pub mod logs;
pub mod json_viewer;
pub mod fold_view;
pub mod fold_lines;
pub mod device_picker;
pub mod picker_rows;
pub mod picker_content;
pub mod status_chips;
pub mod highlight;
pub mod logo;
