//! The options of the program, and the values it derives from them.
use vstd::prelude::*;
use crate::external::number_range_usize;
use crate::order::{Order, order_of_options};
use crate::text::{decimal, chars_of, parse_i32, parsed_i32, parsed_integer, push_str, string_of};

verus! {

/// Window size used when none is given or the one given is out of range.
pub const DEFAULT_SIZE: i32 = 1000;

/// Directory of pictures used when none is given.
pub const DEFAULT_DIR: &'static str = "images/";

/// The options of the program.
pub struct Args {
    /// Directory to search.
    pub directory: Option<String>,
    /// Only files whose path the regular expression matches are shown.
    pub pattern: Option<String>,
    /// Show the pictures in full screen.
    pub maximized: bool,
    /// Order of display.
    pub order: Order,
    /// Date ordered display.
    pub date: bool,
    /// Name ordered display.
    pub name: bool,
    /// Rank ordered display.
    pub value: bool,
    /// Palette ordered display.
    pub palette: bool,
    /// Size ordered display.
    pub size: bool,
    /// Colour count ordered display.
    pub colors: bool,
    /// Label ordered display.
    pub label: bool,
    /// Delay before the next picture.
    pub timer: Option<u64>,
    /// Reading list: only the files it names are shown.
    pub reading: Option<String>,
    /// Index of the first picture shown.
    pub index: Option<usize>,
    /// Number of pictures per row and column.
    pub grid: Option<usize>,
    /// Index of the first picture kept.
    pub from: Option<usize>,
    /// Index of the last picture kept.
    pub to: Option<usize>,
    /// File to view.
    pub file: Option<String>,
    /// Show one picture of each directory.
    pub sample: bool,
    /// Thumbnails only.
    pub thumbnails: bool,
    /// Update image data, then quit.
    pub update_image_data: bool,
    /// Copy the selection to a directory.
    pub copy_selection: Option<String>,
    /// Move the selection to a directory.
    pub move_selection: Option<String>,
    /// Move the pictures with a label to a directory: the label, then the directory.
    pub move_label: Option<Vec<String>>,
    /// Directory under which labelled pictures are moved.
    pub all_label_move_target: Option<String>,
    /// Window width.
    pub width: Option<i32>,
    /// Window height.
    pub height: Option<i32>,
    /// Show the palette of the pictures.
    pub extraction: bool,
}

/// A window size: the one given, else the one read from the environment, else the
/// default; one outside 101..=2999 gives way to the default.
pub open spec fn window_size(given: Option<i32>, env: Option<Seq<char>>) -> i32 {
    let candidate = match given {
        Some(n) => n,
        None => match env {
            Some(s) => match parsed_i32(s) {
                Some(n) => n,
                None => DEFAULT_SIZE,
            },
            None => DEFAULT_SIZE,
        },
    };
    if 100 < candidate && candidate < 3000 {
        candidate
    } else {
        DEFAULT_SIZE
    }
}

fn size_from(given: Option<i32>, env: Option<String>) -> (r: i32)
    ensures
        r == window_size(
            given,
            match env {
                Some(s) => Some(s@),
                None => None,
            },
        ),
{
    let candidate = match given {
        Some(n) => n,
        None => match env {
            Some(s) => match parse_i32(s.as_str()) {
                Some(n) => n,
                None => DEFAULT_SIZE,
            },
            None => DEFAULT_SIZE,
        },
    };
    if 100 < candidate && candidate < 3000 {
        candidate
    } else {
        DEFAULT_SIZE
    }
}

/// The number of pictures per row: the one given when it lies in 1..=10, else 10 for
/// thumbnails and 1 otherwise.
pub open spec fn grid_size_of(grid: Option<usize>, thumbnails: bool) -> usize {
    match grid {
        Some(size) => if 0 < size && size <= 10 {
            size
        } else if thumbnails {
            10
        } else {
            1
        },
        None => if thumbnails {
            10
        } else {
            1
        },
    }
}

/// The display order the options choose: a single-order flag wins, the first set in the
/// order name, date, size, colors, value, palette, label; with none set, the order option.
pub open spec fn chosen_order(a: Args) -> Order {
    if a.name || a.date || a.size || a.colors || a.value || a.palette || a.label {
        order_of_options(a.name, a.date, a.size, a.colors, a.value, a.palette, a.label)
    } else {
        a.order
    }
}

/// The error for a target directory that does not exist.
pub open spec fn missing_path_message(target: Seq<char>) -> Seq<char> {
    "path "@ + target + " doesn't exist"@
}

/// A target directory given as an option: none if none is given, the directory if it
/// exists (`exists`), else an error.
pub fn selection_target(target_arg: &Option<String>, exists: bool) -> (r: Result<Option<String>, String>)
    ensures
        target_arg is None ==> r == Ok::<Option<String>, String>(None),
        target_arg matches Some(t) ==> (exists ==> (r matches Ok(Some(s)) && s@ == t@)),
        target_arg matches Some(t) ==> (!exists ==> (r matches Err(e) && e@
            == missing_path_message(t@))),
{
    match target_arg {
        Some(target) => {
            if exists {
                Ok(Some(string_of(chars_of(target.as_str()).as_slice())))
            } else {
                let mut v: Vec<char> = Vec::new();
                push_str(&mut v, "path ");
                push_str(&mut v, target.as_str());
                push_str(&mut v, " doesn't exist");
                Err(string_of(v.as_slice()))
            }
        },
        None => Ok(None),
    }
}

/// Reads a grid size: a number from 1 to 10.
pub fn less_than_11(s: &str) -> (r: Result<usize, String>)
    ensures
        r is Ok <==> (parsed_integer(s@, false) matches Some(v) && 1 <= v <= 10),
        r matches Ok(n) ==> parsed_integer(s@, false) == Some(n as int),
        r matches Err(e) ==> (parsed_integer(s@, false) matches Some(v) && 10 < v <= usize::MAX
            ==> e@ == "exceeds maximum of "@ + decimal(10)),
        r matches Err(e) ==> (parsed_integer(s@, false) matches Some(v) && v < 1 ==> e@
            == "less than minimum of "@ + decimal(1)),
{
    number_range_usize(s, 1, 10)
}

impl Args {
    /// The window width: the option, else `env_width` (the environment's value), else
    /// the default; one outside 101..=2999 gives way to the default.
    pub fn width(&self, env_width: Option<String>) -> (r: i32)
        ensures
            r == window_size(
                self.width,
                match env_width {
                    Some(s) => Some(s@),
                    None => None,
                },
            ),
    {
        size_from(self.width, env_width)
    }

    /// The window height: the option, else `env_height` (the environment's value), else
    /// the default; one outside 101..=2999 gives way to the default.
    pub fn height(&self, env_height: Option<String>) -> (r: i32)
        ensures
            r == window_size(
                self.height,
                match env_height {
                    Some(s) => Some(s@),
                    None => None,
                },
            ),
    {
        size_from(self.height, env_height)
    }

    /// The directory to copy the selection to; `exists` tells whether it exists.
    pub fn copy_selection_target(&self, exists: bool) -> (r: Result<Option<String>, String>)
        ensures
            self.copy_selection is None ==> r == Ok::<Option<String>, String>(None),
            self.copy_selection matches Some(t) ==> (exists ==> (r matches Ok(Some(s)) && s@
                == t@)),
            self.copy_selection matches Some(t) ==> (!exists ==> (r matches Err(e) && e@
                == missing_path_message(t@))),
    {
        selection_target(&self.copy_selection, exists)
    }

    /// The directory to move the selection to; `exists` tells whether it exists.
    pub fn move_selection_target(&self, exists: bool) -> (r: Result<Option<String>, String>)
        ensures
            self.move_selection is None ==> r == Ok::<Option<String>, String>(None),
            self.move_selection matches Some(t) ==> (exists ==> (r matches Ok(Some(s)) && s@
                == t@)),
            self.move_selection matches Some(t) ==> (!exists ==> (r matches Err(e) && e@
                == missing_path_message(t@))),
    {
        selection_target(&self.move_selection, exists)
    }

    /// The directory to move labelled pictures under; `exists` tells whether it exists.
    pub fn all_label_move_target(&self, exists: bool) -> (r: Result<Option<String>, String>)
        ensures
            self.all_label_move_target is None ==> r == Ok::<Option<String>, String>(None),
            self.all_label_move_target matches Some(t) ==> (exists ==> (r matches Ok(Some(s))
                && s@ == t@)),
            self.all_label_move_target matches Some(t) ==> (!exists ==> (r matches Err(e) && e@
                == missing_path_message(t@))),
    {
        selection_target(&self.all_label_move_target, exists)
    }

    /// The number of pictures per row and column.
    pub fn grid_size(&self) -> (r: usize)
        ensures
            r == grid_size_of(self.grid, self.thumbnails),
    {
        match self.grid {
            Some(size) => if size > 0 && size <= 10 {
                size
            } else if self.thumbnails {
                10
            } else {
                1
            },
            None => if self.thumbnails {
                10
            } else {
                1
            },
        }
    }

    /// The order of display: the one a single-order flag asks for, the first set in the
    /// order name, date, size, colors, value, palette, label; with none set, the order
    /// option.
    pub fn order(&self) -> (r: Order)
        ensures
            r == chosen_order(*self),
            self.name ==> r == Order::Name,
            !self.name && self.date ==> r == Order::Date,
            !self.name && !self.date && self.size ==> r == Order::Size,
            !self.name && !self.date && !self.size && self.colors ==> r == Order::Colors,
            !self.name && !self.date && !self.size && !self.colors && self.value ==> r
                == Order::Value,
            !self.name && !self.date && !self.size && !self.colors && !self.value && self.palette
                ==> r == Order::Palette,
            !self.name && !self.date && !self.size && !self.colors && !self.value && !self.palette
                && self.label ==> r == Order::Label,
            !self.name && !self.date && !self.size && !self.colors && !self.value && !self.palette
                && !self.label ==> r == self.order,
    {
        if self.name || self.date || self.size || self.colors || self.value || self.palette
            || self.label {
            Order::from_options(
                self.name,
                self.date,
                self.size,
                self.colors,
                self.value,
                self.palette,
                self.label,
            )
        } else {
            self.order
        }
    }

    /// The directory of pictures: the option, else `env_dir` (the environment's value),
    /// else the default.
    pub fn path(&self, env_dir: Option<String>) -> (r: String)
        ensures
            r@ == match self.directory {
                Some(d) => d@,
                None => match env_dir {
                    Some(e) => e@,
                    None => DEFAULT_DIR@,
                },
            },
    {
        match &self.directory {
            Some(d) => string_of(chars_of(d.as_str()).as_slice()),
            None => match env_dir {
                Some(e) => e,
                None => string_of(chars_of(DEFAULT_DIR).as_slice()),
            },
        }
    }

    /// Whether one picture of each directory is shown.
    pub fn sample(&self) -> (r: bool)
        ensures
            r == self.sample,
    {
        self.sample
    }
}

}

verus! {

/// A window size always lies in 101..=2999.
pub proof fn lemma_window_size_in_range(given: Option<i32>, env: Option<Seq<char>>)
    ensures
        100 < window_size(given, env) < 3000,
{
}

/// A grid always has from 1 to 10 pictures per row.
pub proof fn lemma_grid_size_in_range(grid: Option<usize>, thumbnails: bool)
    ensures
        1 <= grid_size_of(grid, thumbnails) <= 10,
{
}

}

verus! {

/// A window size given as an option within 101..=2999 is used as given, whatever the
/// environment says; with none given and none in the environment, the window is 1000
/// pixels; a size read from the environment is used when it lies in range.
pub proof fn lemma_window_sizes_as_given(given: Option<i32>, env: Option<Seq<char>>)
    ensures
        given matches Some(n) ==> (100 < n < 3000 ==> window_size(given, env) == n),
        given is None && env is None ==> window_size(given, env) == 1000,
        given is None ==> (env matches Some(e) ==> (parsed_i32(e) matches Some(n) ==> (100 < n
            < 3000 ==> window_size(given, env) == n))),
{
}

/// A grid size given within 1..=10 is used as given; without one, thumbnails show ten
/// pictures per row and other views one.
pub proof fn lemma_grid_sizes_as_given(grid: Option<usize>, thumbnails: bool)
    ensures
        grid matches Some(g) ==> (1 <= g <= 10 ==> grid_size_of(grid, thumbnails) == g),
        grid is None && thumbnails ==> grid_size_of(grid, thumbnails) == 10,
        grid is None && !thumbnails ==> grid_size_of(grid, thumbnails) == 1,
{
}

}
