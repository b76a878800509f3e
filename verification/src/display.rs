//! What the display server draws and hit-tests: the context menu, toast
//! notifications, the start menu, the pointer, and the pixel work of the
//! desktop and window renderers that needs no font.
pub mod context_menu;
pub mod frame;
pub mod icon_renderer;
pub mod desktop_renderer;
pub mod taskbar_buttons;
pub mod cursor;
pub mod notification;
pub mod start_menu;
pub mod window_renderer;
pub mod window_frame;
pub mod start_menu_drawing;
pub mod settings_drawing;
pub mod explorer_drawing;
pub mod alt_tab_drawing;
pub mod toast_drawing;
pub mod placeholder_drawing;
pub mod display_server;
pub mod terminal_input;
pub mod window_clicks;
pub mod limits;
