pub mod newsletter_issue;
pub mod subscriber_email;
pub mod subscriber_name;
pub mod subscription_token;
