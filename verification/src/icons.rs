//! The icon alphabet the app is drawn in.
//!
//! A 24-unit grid at roughly 1.75 stroke, in the shape of Lucide; each icon is
//! painted from primitives by the application, so it always shows up and
//! always takes the theme colour. The library names them.

use vstd::prelude::*;

verus! {

/// An icon, by name. The set is kept whole: an icon with no caller today is
/// still part of the alphabet.
#[derive(Clone, Copy, PartialEq, Eq, Debug, Structural)]
pub enum Icon {
    ChevronRight,
    ChevronLeft,
    ChevronDown,
    ChevronUp,
    More,
    Search,
    Plus,
    Minus,
    File,
    Folder,
    FolderOpen,
    FolderPlus,
    Link,
    Unlink,
    WikiLink,
    Bold,
    Italic,
    Underline,
    Strike,
    Heading,
    List,
    Quote,
    Code,
    Table,
    Image,
    Trash,
    Pencil,
    Download,
    Print,
    Copy,
    Tag,
    Group,
    Ungroup,
    Fit,
    Scissors,
    Graph,
    Timeline,
    Star,
    StarFilled,
    Palette,
    Eraser,
    Settings,
    Sun,
    Moon,
    Check,
    Close,
    Info,
    Grip,
    Eye,
    Layers,
    ArrowRight,
    Sidebar,
    Refresh,
    Sparkle,
    Warning,
    Cube,
    Users,
    Grid,
    Upload,
    History,
    Star4,
}

} // verus!
