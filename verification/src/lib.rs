//! Documentation extraction for multi-file assembly projects.
//!
//! Each source file is parsed into an [`assembly_file::AssemblyFile`] by a
//! front end of [`syntax`]; an [`assembly_project::AssemblyProject`] links
//! the files of a project: it finds the file that defines each global name,
//! links external names to the files that define them, and gathers the
//! symbols of each file and the sub-labels of each label. The project is
//! projected into one [`docs::Docs`] tree per file, which a
//! [`docs::Backend`] turns into text.
pub mod assembly_file;
pub mod assembly_project;
pub mod docs;
pub mod names;
pub mod syntax;
pub mod text;
