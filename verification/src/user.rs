//! Users, their permissions, and the action type a request runs under.
//! Admins may do everything; a general user needs the matching
//! permission bit.

use vstd::prelude::*;

use crate::error::CustomErrorCode;

verus! {

pub const MANAGE_AREA: i64 = 1;

pub const MANAGE_PERSON: i64 = 2;

pub const MANAGE_WAREHOUSE: i64 = 4;

pub const MANAGE_SKU_CATEGORY: i64 = 8;

pub const MANAGE_SKU: i64 = 16;

pub const MANAGE_ORDER_STATUS: i64 = 32;

pub const ADD_ORDER: i64 = 64;

pub const UPDATE_REMOVE_ORDER: i64 = 128;

pub const ADD_ORDER_PAYMENT: i64 = 256;

pub const UPDATE_REMOVE_ORDER_PAYMENT: i64 = 512;

#[derive(Clone, Copy, Debug, PartialEq, Eq, Structural, Hash)]
pub enum UserType {
    Admin,
    General,
}

/// A user account.
#[derive(Clone, Debug)]
pub struct UserInfo {
    pub id: i64,
    pub alias: String,
    pub username: String,
    pub password: String,
    pub user_type: UserType,
    pub permission: i64,
    pub is_connected: bool,
}

/// Who an operation acts as: the system itself, an admin, or a general
/// user (allowed or not yet checked), carrying the user's id.
#[derive(Clone, Copy, Debug, PartialEq, Eq, Structural, Hash)]
pub enum ActionType {
    General(i64),
    GeneralAllowed(i64),
    Admin,
    System,
}

impl UserInfo {
    /// The action type this user acts as: admins act as Admin, general
    /// users carry their id, marked allowed when the permission test
    /// already passed.
    pub fn as_action_type(&self, have_permission: bool) -> (r: ActionType)
        ensures
            self.user_type == UserType::Admin ==> r == ActionType::Admin,
            self.user_type == UserType::General && have_permission ==> r
                == ActionType::GeneralAllowed(self.id),
            self.user_type == UserType::General && !have_permission ==> r == ActionType::General(
                self.id,
            ),
    {
        match self.user_type {
            UserType::Admin => ActionType::Admin,
            UserType::General => if have_permission {
                ActionType::GeneralAllowed(self.id)
            } else {
                ActionType::General(self.id)
            },
        }
    }
}

/// A filter for listing users.
#[derive(Clone, Debug)]
pub struct GetUsersQuery {
    pub alias: Option<String>,
    pub username: Option<String>,
    pub user_type: Option<UserType>,
    pub sorters: Option<Vec<String>>,
}

impl GetUsersQuery {
    /// The filter that matches everyone.
    pub fn emptpy() -> (r: Self)
        ensures
            r.alias is None,
            r.username is None,
            r.user_type is None,
            r.sorters is None,
    {
        GetUsersQuery { alias: Option::None, user_type: Option::None, username: Option::None, sorters: Option::None }
    }
}

/// A logged-in user together with the token the session runs under.
#[derive(Clone, Debug)]
pub struct AuthenticatedUser {
    pub user: UserInfo,
    pub token: String,
}

/// True when the user holds the given permission bit or is an admin.
pub open spec fn spec_permitted(u: UserInfo, bit: i64) -> bool {
    u.user_type == UserType::Admin || u.permission & bit == bit
}

impl AuthenticatedUser {
    pub fn fail_if_not_admin(&self) -> (r: Result<(), CustomErrorCode>)
        ensures
            r is Ok <==> self.user.user_type == UserType::Admin,
            r is Err ==> r == Result::<(), CustomErrorCode>::Err(CustomErrorCode::NoPermission),
    {
        if self.user.user_type != UserType::Admin {
            return Result::Err(CustomErrorCode::NoPermission);
        }
        Result::Ok(())
    }

    fn check_bit(&self, bit: i64) -> (r: Result<(), CustomErrorCode>)
        ensures
            r is Ok <==> spec_permitted(self.user, bit),
            r is Err ==> r == Result::<(), CustomErrorCode>::Err(CustomErrorCode::NoPermission),
    {
        if self.user.user_type != UserType::Admin && self.user.permission & bit != bit {
            return Result::Err(CustomErrorCode::NoPermission);
        }
        Result::Ok(())
    }

    pub fn is_manage_area(&self) -> (r: Result<(), CustomErrorCode>)
        ensures
            r is Ok <==> spec_permitted(self.user, MANAGE_AREA),
            r is Err ==> r == Result::<(), CustomErrorCode>::Err(CustomErrorCode::NoPermission),
    {
        self.check_bit(MANAGE_AREA)
    }

    pub fn is_manage_person(&self) -> (r: Result<(), CustomErrorCode>)
        ensures
            r is Ok <==> spec_permitted(self.user, MANAGE_PERSON),
            r is Err ==> r == Result::<(), CustomErrorCode>::Err(CustomErrorCode::NoPermission),
    {
        self.check_bit(MANAGE_PERSON)
    }

    pub fn is_manage_warehouse(&self) -> (r: Result<(), CustomErrorCode>)
        ensures
            r is Ok <==> spec_permitted(self.user, MANAGE_WAREHOUSE),
            r is Err ==> r == Result::<(), CustomErrorCode>::Err(CustomErrorCode::NoPermission),
    {
        self.check_bit(MANAGE_WAREHOUSE)
    }

    pub fn is_manage_sku(&self) -> (r: Result<(), CustomErrorCode>)
        ensures
            r is Ok <==> spec_permitted(self.user, MANAGE_SKU),
            r is Err ==> r == Result::<(), CustomErrorCode>::Err(CustomErrorCode::NoPermission),
    {
        self.check_bit(MANAGE_SKU)
    }

    pub fn is_manage_sku_category(&self) -> (r: Result<(), CustomErrorCode>)
        ensures
            r is Ok <==> spec_permitted(self.user, MANAGE_SKU_CATEGORY),
            r is Err ==> r == Result::<(), CustomErrorCode>::Err(CustomErrorCode::NoPermission),
    {
        self.check_bit(MANAGE_SKU_CATEGORY)
    }

    pub fn is_manage_order_status(&self) -> (r: Result<(), CustomErrorCode>)
        ensures
            r is Ok <==> spec_permitted(self.user, MANAGE_ORDER_STATUS),
            r is Err ==> r == Result::<(), CustomErrorCode>::Err(CustomErrorCode::NoPermission),
    {
        self.check_bit(MANAGE_ORDER_STATUS)
    }

    pub fn is_add_order(&self) -> (r: Result<(), CustomErrorCode>)
        ensures
            r is Ok <==> spec_permitted(self.user, ADD_ORDER),
            r is Err ==> r == Result::<(), CustomErrorCode>::Err(CustomErrorCode::NoPermission),
    {
        self.check_bit(ADD_ORDER)
    }

    pub fn is_update_remove_order(&self) -> (r: Result<(), CustomErrorCode>)
        ensures
            r is Ok <==> spec_permitted(self.user, UPDATE_REMOVE_ORDER),
            r is Err ==> r == Result::<(), CustomErrorCode>::Err(CustomErrorCode::NoPermission),
    {
        self.check_bit(UPDATE_REMOVE_ORDER)
    }

    pub fn is_add_order_payment(&self) -> (r: Result<(), CustomErrorCode>)
        ensures
            r is Ok <==> spec_permitted(self.user, ADD_ORDER_PAYMENT),
            r is Err ==> r == Result::<(), CustomErrorCode>::Err(CustomErrorCode::NoPermission),
    {
        self.check_bit(ADD_ORDER_PAYMENT)
    }

    pub fn is_update_remove_order_payment(&self) -> (r: Result<(), CustomErrorCode>)
        ensures
            r is Ok <==> spec_permitted(self.user, UPDATE_REMOVE_ORDER_PAYMENT),
            r is Err ==> r == Result::<(), CustomErrorCode>::Err(CustomErrorCode::NoPermission),
    {
        self.check_bit(UPDATE_REMOVE_ORDER_PAYMENT)
    }
}

} // verus!
