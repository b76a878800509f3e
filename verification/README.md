# Trimangees shell

The desktop shell of Trimangees OS: a window manager, desktop icons, a
taskbar and start menu, toast notifications, a context menu, a terminal
with history and completion, a file browser and a settings panel, all
drawn into a 1280 x 720 frame.

`src/` is the library, verified with Verus. Every public function states
what it returns or changes in its `ensures`; the laws of the library (what
one operation undoes of another, what every operation keeps) are public
proof functions beside the code they speak of.

- `window_manager`: the window stack, focus, maximise, minimise, snapping
  and resize arithmetic.
- `display::display_server`: the display server's event handlers. Each
  takes the state and an event and gives the next state and a `Reply`:
  whether to redraw and the outside work to do (`Action`), which the event
  loop carries out and answers with the next event.
- `display::limits`: the tests a caller runs before handing an event to a
  handler.
- `display::terminal_input`, `display::window_clicks`,
  `display::context_menu`, `display::start_menu`, `display::notification`:
  the line editor, hit tests and widgets.
- `display::frame`, `display::icon_renderer`, `display::desktop_renderer`,
  `display::taskbar_buttons`, `display::window_renderer`,
  `display::window_frame`, `display::start_menu_drawing`,
  `display::settings_drawing`, `display::explorer_drawing`,
  `display::alt_tab_drawing`, `display::toast_drawing`,
  `display::placeholder_drawing`: the drawing that needs neither the font
  nor floating point, stated pixel by pixel, and the terminal's colour
  escapes. The display server draws text and gradients over them, in the
  order each module's documentation gives.
- `config`, `shell`, `terminal`, `application_manager`, `desktop`,
  `taskbar`, `start_menu`, `explorer_state`, `explorer_app`, `filesystem`,
  `boot`: settings files, the shell and its command line, applications and
  launch plans, and the reports the programs print.

`app/` runs it: the winit event loop and pixels surface, text drawn with
ab_glyph, the wallpaper gradient, processes and folder listings. Run it
with no argument for the desktop, or with `terminal`, `explorer` or
`filesystem` for the small programs. Set `TRIMANGEES_FONT` to a TrueType
font file if none of the usual system fonts is installed.
