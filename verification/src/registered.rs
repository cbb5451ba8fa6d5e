//! Executables registered with a prefix: the metadata record and its
//! builder.  Filesystem paths are carried as plain strings; reading and
//! writing the configuration files that persist these records is left to
//! the caller.

use vstd::prelude::*;
use vstd::string::StringExecFns;

use crate::error::PrefixError;

verus! {

/// An executable registered for management within a prefix.
#[derive(Debug, Clone, PartialEq, Eq)]
pub struct RegisteredExecutable {
    /// Human-readable name.
    pub name: String,
    /// Optional description.
    pub description: Option<String>,
    /// Optional path to an icon file.
    pub icon_path: Option<String>,
    /// Path to the executable file.
    pub executable_path: String,
    /// Optional file version from the executable's metadata.
    pub file_version: Option<String>,
    /// Optional product version from the executable's metadata.
    pub product_version: Option<String>,
    /// Optional company name from the executable's metadata.
    pub company_name: Option<String>,
    /// Optional file description from the executable's metadata.
    pub file_description: Option<String>,
    /// Optional product name from the executable's metadata.
    pub product_name: Option<String>,
    /// Modules (DLLs) the executable imports.
    pub imported_modules: Vec<String>,
}

impl RegisteredExecutable {
    /// A record holding only a name and a path.
    pub fn new(name: String, executable_path: String) -> (r: Self)
        ensures
            r.name@ == name@,
            r.executable_path@ == executable_path@,
            r.description is None,
            r.icon_path is None,
            r.file_version is None,
            r.product_version is None,
            r.company_name is None,
            r.file_description is None,
            r.product_name is None,
            r.imported_modules@.len() == 0,
    {
        RegisteredExecutable {
            name,
            description: None,
            icon_path: None,
            executable_path,
            file_version: None,
            product_version: None,
            company_name: None,
            file_description: None,
            product_name: None,
            imported_modules: Vec::new(),
        }
    }

    /// The record with a description.
    pub fn with_description(self, description: String) -> (r: Self)
        ensures
            r == (RegisteredExecutable { description: Some(description), ..self }),
    {
        RegisteredExecutable { description: Some(description), ..self }
    }

    /// The record with an icon path.
    pub fn with_icon_path(self, icon_path: String) -> (r: Self)
        ensures
            r == (RegisteredExecutable { icon_path: Some(icon_path), ..self }),
    {
        RegisteredExecutable { icon_path: Some(icon_path), ..self }
    }

    /// The record with a file version.
    pub fn with_file_version(self, version: String) -> (r: Self)
        ensures
            r == (RegisteredExecutable { file_version: Some(version), ..self }),
    {
        RegisteredExecutable { file_version: Some(version), ..self }
    }

    /// The record with a product version.
    pub fn with_product_version(self, version: String) -> (r: Self)
        ensures
            r == (RegisteredExecutable { product_version: Some(version), ..self }),
    {
        RegisteredExecutable { product_version: Some(version), ..self }
    }

    /// The record with a company name.
    pub fn with_company_name(self, company: String) -> (r: Self)
        ensures
            r == (RegisteredExecutable { company_name: Some(company), ..self }),
    {
        RegisteredExecutable { company_name: Some(company), ..self }
    }

    /// The record with a file description.
    pub fn with_file_description(self, description: String) -> (r: Self)
        ensures
            r == (RegisteredExecutable { file_description: Some(description), ..self }),
    {
        RegisteredExecutable { file_description: Some(description), ..self }
    }

    /// The record with a product name.
    pub fn with_product_name(self, product: String) -> (r: Self)
        ensures
            r == (RegisteredExecutable { product_name: Some(product), ..self }),
    {
        RegisteredExecutable { product_name: Some(product), ..self }
    }

    /// The record with its imported modules.
    pub fn with_imported_modules(self, modules: Vec<String>) -> (r: Self)
        ensures
            r == (RegisteredExecutable { imported_modules: modules, ..self }),
    {
        RegisteredExecutable { imported_modules: modules, ..self }
    }
}

/// Step-by-step builder for a [`RegisteredExecutable`]; a name and an
/// executable path are required, everything else is optional.
#[derive(Debug, Clone, PartialEq, Eq)]
pub struct RegisteredExecutableBuilder {
    pub name: Option<String>,
    pub description: Option<String>,
    pub icon_path: Option<String>,
    pub executable_path: Option<String>,
    pub file_version: Option<String>,
    pub product_version: Option<String>,
    pub company_name: Option<String>,
    pub file_description: Option<String>,
    pub product_name: Option<String>,
    pub imported_modules: Vec<String>,
}

impl RegisteredExecutableBuilder {
    /// An empty builder.
    pub fn new() -> (r: Self)
        ensures
            r.name is None,
            r.description is None,
            r.icon_path is None,
            r.executable_path is None,
            r.file_version is None,
            r.product_version is None,
            r.company_name is None,
            r.file_description is None,
            r.product_name is None,
            r.imported_modules@.len() == 0,
    {
        RegisteredExecutableBuilder {
            name: None,
            description: None,
            icon_path: None,
            executable_path: None,
            file_version: None,
            product_version: None,
            company_name: None,
            file_description: None,
            product_name: None,
            imported_modules: Vec::new(),
        }
    }

    /// Sets the name.
    pub fn name(self, name: String) -> (r: Self)
        ensures
            r == (RegisteredExecutableBuilder { name: Some(name), ..self }),
    {
        RegisteredExecutableBuilder { name: Some(name), ..self }
    }

    /// Sets the description.
    pub fn description(self, description: String) -> (r: Self)
        ensures
            r == (RegisteredExecutableBuilder { description: Some(description), ..self }),
    {
        RegisteredExecutableBuilder { description: Some(description), ..self }
    }

    /// Sets the icon path.
    pub fn icon_path(self, icon_path: String) -> (r: Self)
        ensures
            r == (RegisteredExecutableBuilder { icon_path: Some(icon_path), ..self }),
    {
        RegisteredExecutableBuilder { icon_path: Some(icon_path), ..self }
    }

    /// Sets the executable path.
    pub fn executable_path(self, executable_path: String) -> (r: Self)
        ensures
            r == (RegisteredExecutableBuilder {
                executable_path: Some(executable_path),
                ..self
            }),
    {
        RegisteredExecutableBuilder { executable_path: Some(executable_path), ..self }
    }

    /// Sets the file version.
    pub fn file_version(self, version: String) -> (r: Self)
        ensures
            r == (RegisteredExecutableBuilder { file_version: Some(version), ..self }),
    {
        RegisteredExecutableBuilder { file_version: Some(version), ..self }
    }

    /// Sets the product version.
    pub fn product_version(self, version: String) -> (r: Self)
        ensures
            r == (RegisteredExecutableBuilder { product_version: Some(version), ..self }),
    {
        RegisteredExecutableBuilder { product_version: Some(version), ..self }
    }

    /// Sets the company name.
    pub fn company_name(self, company: String) -> (r: Self)
        ensures
            r == (RegisteredExecutableBuilder { company_name: Some(company), ..self }),
    {
        RegisteredExecutableBuilder { company_name: Some(company), ..self }
    }

    /// Sets the file description.
    pub fn file_description(self, description: String) -> (r: Self)
        ensures
            r == (RegisteredExecutableBuilder { file_description: Some(description), ..self }),
    {
        RegisteredExecutableBuilder { file_description: Some(description), ..self }
    }

    /// Sets the product name.
    pub fn product_name(self, product: String) -> (r: Self)
        ensures
            r == (RegisteredExecutableBuilder { product_name: Some(product), ..self }),
    {
        RegisteredExecutableBuilder { product_name: Some(product), ..self }
    }

    /// Sets the imported modules.
    pub fn imported_modules(self, modules: Vec<String>) -> (r: Self)
        ensures
            r == (RegisteredExecutableBuilder { imported_modules: modules, ..self }),
    {
        RegisteredExecutableBuilder { imported_modules: modules, ..self }
    }

    /// Builds the record.  Fails with a `Validation` error when the name
    /// or the executable path was never set.
    pub fn build(self) -> (r: Result<RegisteredExecutable, PrefixError>)
        ensures
            (r is Ok) == (self.name is Some && self.executable_path is Some),
            r matches Ok(e) ==> e == (RegisteredExecutable {
                name: self.name->Some_0,
                description: self.description,
                icon_path: self.icon_path,
                executable_path: self.executable_path->Some_0,
                file_version: self.file_version,
                product_version: self.product_version,
                company_name: self.company_name,
                file_description: self.file_description,
                product_name: self.product_name,
                imported_modules: self.imported_modules,
            }),
            r matches Err(e) ==> e matches PrefixError::Validation(_),
    {
        let name = match self.name {
            Some(n) => n,
            None => {
                return Err(PrefixError::Validation(String::from_str("name is required")));
            },
        };
        let executable_path = match self.executable_path {
            Some(p) => p,
            None => {
                return Err(
                    PrefixError::Validation(String::from_str("executable path is required")),
                );
            },
        };
        Ok(
            RegisteredExecutable {
                name,
                description: self.description,
                icon_path: self.icon_path,
                executable_path,
                file_version: self.file_version,
                product_version: self.product_version,
                company_name: self.company_name,
                file_description: self.file_description,
                product_name: self.product_name,
                imported_modules: self.imported_modules,
            },
        )
    }
}

} // verus!
